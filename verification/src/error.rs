//! Application-facing error taxonomy and the message built for database
//! conflict reports.

use vstd::prelude::*;

verus! {

/// Error classes surfaced to clients. `InternalServer` deliberately carries
/// no message so that internal details never leak outward.
#[derive(Debug, Clone, PartialEq, Eq)]
pub enum Error {
    BadRequest(String),
    Unauthorized(String),
    Forbidden(String),
    NotFound(String),
    Conflict(String),
    InternalServer,
}

/// Body of an error response: a single human-readable message.
#[derive(Debug, Clone, PartialEq, Eq)]
pub struct ErrorBody {
    pub message: String,
}

/// Metadata extracted from a database constraint violation.
#[derive(Debug, Clone, PartialEq, Eq)]
pub struct DbErrorMeta {
    pub code: Option<String>,
    pub constraint: Option<String>,
    pub message: String,
}

impl Error {
    pub fn bad_request(msg: String) -> (r: Error)
        ensures
            r == Error::BadRequest(msg),
    {
        Error::BadRequest(msg)
    }

    pub fn unauthorized(msg: String) -> (r: Error)
        ensures
            r == Error::Unauthorized(msg),
    {
        Error::Unauthorized(msg)
    }

    pub fn forbidden(msg: String) -> (r: Error)
        ensures
            r == Error::Forbidden(msg),
    {
        Error::Forbidden(msg)
    }

    pub fn not_found(msg: String) -> (r: Error)
        ensures
            r == Error::NotFound(msg),
    {
        Error::NotFound(msg)
    }

    pub fn conflict(msg: String) -> (r: Error)
        ensures
            r == Error::Conflict(msg),
    {
        Error::Conflict(msg)
    }

    pub fn internal_server_error() -> (r: Error)
        ensures
            r == Error::InternalServer,
    {
        Error::InternalServer
    }

    /// The HTTP status code of each error class.
    pub fn status_code(&self) -> (r: u16)
        ensures
            r == spec_status_code(*self),
    {
        match self {
            Error::BadRequest(_) => 400,
            Error::Unauthorized(_) => 401,
            Error::Forbidden(_) => 403,
            Error::NotFound(_) => 404,
            Error::Conflict(_) => 409,
            Error::InternalServer => 500,
        }
    }
}

/// The HTTP status code an error class is reported with.
pub open spec fn spec_status_code(e: Error) -> u16 {
    match e {
        Error::BadRequest(_) => 400u16,
        Error::Unauthorized(_) => 401u16,
        Error::Forbidden(_) => 403u16,
        Error::NotFound(_) => 404u16,
        Error::Conflict(_) => 409u16,
        Error::InternalServer => 500u16,
    }
}

/// The part of `s` that follows the last underscore; the whole of `s` when
/// it holds no underscore.
pub open spec fn suffix_after_last_underscore(s: Seq<char>) -> Seq<char>
    decreases s.len(),
{
    if s.len() == 0 {
        s
    } else if s.last() == '_' {
        Seq::empty()
    } else {
        suffix_after_last_underscore(s.drop_last()).push(s.last())
    }
}

/// ASCII upper-case image of a character; characters outside `a`..`z` are
/// unchanged.
pub open spec fn upper_first_char(c: char) -> char {
    match c {
        'a' => 'A',
        'b' => 'B',
        'c' => 'C',
        'd' => 'D',
        'e' => 'E',
        'f' => 'F',
        'g' => 'G',
        'h' => 'H',
        'i' => 'I',
        'j' => 'J',
        'k' => 'K',
        'l' => 'L',
        'm' => 'M',
        'n' => 'N',
        'o' => 'O',
        'p' => 'P',
        'q' => 'Q',
        'r' => 'R',
        's' => 'S',
        't' => 'T',
        'u' => 'U',
        'v' => 'V',
        'w' => 'W',
        'x' => 'X',
        'y' => 'Y',
        'z' => 'Z',
        _ => c,
    }
}

/// A field name with its first character upper-cased; the empty name becomes
/// the placeholder `Value`.
pub open spec fn spec_capitalized(s: Seq<char>) -> Seq<char> {
    if s.len() == 0 {
        "Value"@
    } else {
        seq![upper_first_char(s[0])] + s.subrange(1, s.len() as int)
    }
}

/// The message reported for a database conflict: the field named by the last
/// segment of the violated constraint, or a generic fallback.
pub open spec fn spec_conflict_message(meta: Option<DbErrorMeta>) -> Seq<char> {
    match meta {
        Option::None => "Duplicate value"@,
        Option::Some(m) => match m.constraint {
            Option::None => "Duplicate value"@,
            Option::Some(c) => spec_capitalized(suffix_after_last_underscore(c@))
                + " already exists"@,
        },
    }
}

proof fn lemma_suffix_is_subrange(s: Seq<char>, start: int)
    requires
        0 <= start <= s.len(),
        start == 0 || s[start - 1] == '_',
        forall|j: int| start <= j < s.len() ==> s[j] != '_',
    ensures
        suffix_after_last_underscore(s) == s.subrange(start, s.len() as int),
    decreases s.len(),
{
    if s.len() == 0 {
        assert(suffix_after_last_underscore(s) =~= s.subrange(0, 0));
    } else if start == s.len() {
        assert(s.last() == '_');
        assert(suffix_after_last_underscore(s) =~= s.subrange(start, s.len() as int));
    } else {
        assert(s.last() != '_');
        let t = s.drop_last();
        assert(start == 0 || t[start - 1] == '_');
        assert(forall|j: int| start <= j < t.len() ==> t[j] != '_');
        lemma_suffix_is_subrange(t, start);
        assert(t.subrange(start, t.len() as int) =~= s.subrange(start, s.len() - 1));
        assert(s.subrange(start, s.len() - 1).push(s.last()) =~= s.subrange(
            start,
            s.len() as int,
        ));
    }
}

/// The upper-case form of a lower-case ASCII letter as a one-character
/// string, or `None` for any character that upper-casing leaves unchanged.
fn upper_first_str(c: char) -> (r: Option<&'static str>)
    ensures
        match r {
            Option::Some(s) => s@ =~= seq![upper_first_char(c)],
            Option::None => upper_first_char(c) == c,
        },
{
    match c {
        'a' => {
            proof {
                reveal_strlit("A");
            }
            Option::Some("A")
        },
        'b' => {
            proof {
                reveal_strlit("B");
            }
            Option::Some("B")
        },
        'c' => {
            proof {
                reveal_strlit("C");
            }
            Option::Some("C")
        },
        'd' => {
            proof {
                reveal_strlit("D");
            }
            Option::Some("D")
        },
        'e' => {
            proof {
                reveal_strlit("E");
            }
            Option::Some("E")
        },
        'f' => {
            proof {
                reveal_strlit("F");
            }
            Option::Some("F")
        },
        'g' => {
            proof {
                reveal_strlit("G");
            }
            Option::Some("G")
        },
        'h' => {
            proof {
                reveal_strlit("H");
            }
            Option::Some("H")
        },
        'i' => {
            proof {
                reveal_strlit("I");
            }
            Option::Some("I")
        },
        'j' => {
            proof {
                reveal_strlit("J");
            }
            Option::Some("J")
        },
        'k' => {
            proof {
                reveal_strlit("K");
            }
            Option::Some("K")
        },
        'l' => {
            proof {
                reveal_strlit("L");
            }
            Option::Some("L")
        },
        'm' => {
            proof {
                reveal_strlit("M");
            }
            Option::Some("M")
        },
        'n' => {
            proof {
                reveal_strlit("N");
            }
            Option::Some("N")
        },
        'o' => {
            proof {
                reveal_strlit("O");
            }
            Option::Some("O")
        },
        'p' => {
            proof {
                reveal_strlit("P");
            }
            Option::Some("P")
        },
        'q' => {
            proof {
                reveal_strlit("Q");
            }
            Option::Some("Q")
        },
        'r' => {
            proof {
                reveal_strlit("R");
            }
            Option::Some("R")
        },
        's' => {
            proof {
                reveal_strlit("S");
            }
            Option::Some("S")
        },
        't' => {
            proof {
                reveal_strlit("T");
            }
            Option::Some("T")
        },
        'u' => {
            proof {
                reveal_strlit("U");
            }
            Option::Some("U")
        },
        'v' => {
            proof {
                reveal_strlit("V");
            }
            Option::Some("V")
        },
        'w' => {
            proof {
                reveal_strlit("W");
            }
            Option::Some("W")
        },
        'x' => {
            proof {
                reveal_strlit("X");
            }
            Option::Some("X")
        },
        'y' => {
            proof {
                reveal_strlit("Y");
            }
            Option::Some("Y")
        },
        'z' => {
            proof {
                reveal_strlit("Z");
            }
            Option::Some("Z")
        },
        _ => Option::None,
    }
}

/// Builds the client-facing message for a database uniqueness conflict from
/// the violated constraint's name, as in `Email already exists`.
pub fn conflict_message(meta: &Option<DbErrorMeta>) -> (r: String)
    ensures
        r@ == spec_conflict_message(*meta),
{
    let constraint: &String = match meta {
        Option::None => {
            return "Duplicate value".to_owned();
        },
        Option::Some(m) => match &m.constraint {
            Option::None => {
                return "Duplicate value".to_owned();
            },
            Option::Some(c) => c,
        },
    };
    let s: &str = constraint.as_str();
    let n: usize = s.unicode_len();
    let mut start: usize = 0;
    let mut i: usize = 0;
    while i < n
        invariant
            i <= n,
            n == s@.len(),
            start <= i,
            start == 0 || s@[start - 1] == '_',
            forall|j: int| start <= j < i ==> s@[j] != '_',
        decreases n - i,
    {
        if s.get_char(i) == '_' {
            start = i + 1;
        }
        i = i + 1;
    }
    proof {
        lemma_suffix_is_subrange(s@, start as int);
    }
    let ghost field: Seq<char> = s@.subrange(start as int, n as int);
    let capitalized: String = if start == n {
        assert(spec_capitalized(field) == "Value"@);
        "Value".to_owned()
    } else {
        let c = s.get_char(start);
        match upper_first_str(c) {
            Option::Some(up) => {
                let rest = s.substring_char(start + 1, n);
                let joined = up.to_owned().concat(rest);
                assert(joined@ =~= spec_capitalized(field));
                joined
            },
            Option::None => {
                let whole = s.substring_char(start, n).to_owned();
                assert(whole@ =~= spec_capitalized(field));
                whole
            },
        }
    };
    capitalized.concat(" already exists")
}

} // verus!
