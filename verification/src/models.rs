//! Plain data models of the service's request and storage records, and the
//! service configuration.
//!
//! Parsing, validation attributes and database mapping live at the
//! transport boundary; here the models are bare values that the verified
//! logic and its callers share.

use vstd::prelude::*;

verus! {

/// A user's role.
#[derive(Debug, Clone, PartialEq, Eq)]
pub enum UserRole {
    Admin,
    User,
}

impl UserRole {
    /// Parses a role from its canonical name; any other text is rejected.
    pub fn try_from(value: &str) -> (r: Result<UserRole, ()>)
        ensures
            value@ == "Admin"@ ==> r == Result::<UserRole, ()>::Ok(UserRole::Admin),
            value@ == "User"@ ==> r == Result::<UserRole, ()>::Ok(UserRole::User),
            value@ != "Admin"@ && value@ != "User"@ ==> r == Result::<UserRole, ()>::Err(()),
    {
        proof {
            reveal_strlit("Admin");
            reveal_strlit("User");
            assert("Admin"@.len() != "User"@.len());
        }
        let v = value.to_owned();
        if v == "Admin".to_owned() {
            Result::Ok(UserRole::Admin)
        } else if v == "User".to_owned() {
            Result::Ok(UserRole::User)
        } else {
            Result::Err(())
        }
    }
}

/// Whether a conversation is a direct exchange or a group.
#[derive(Debug, Clone, PartialEq, Eq)]
pub enum ConversationType {
    Direct,
    Group,
}

/// The kind of a stored message.
#[derive(Debug, Clone, PartialEq, Eq)]
pub enum MessageType {
    Text,
    Image,
    Video,
    File,
    System,
}

/// A sign-up request.
#[derive(Debug, Clone, PartialEq, Eq)]
pub struct SignUpModel {
    pub username: String,
    pub email: String,
    pub password: String,
    pub first_name: String,
    pub last_name: String,
}

/// A sign-in request.
#[derive(Debug, Clone, PartialEq, Eq)]
pub struct SignInModel {
    pub username: String,
    pub password: String,
}

/// A token-refresh request.
#[derive(Debug, Clone, PartialEq, Eq)]
pub struct RefreshTokenModel {
    pub refresh_token: String,
}

/// A profile update; absent fields are left untouched, doubly-optional
/// fields distinguish "leave as is" from "clear".
#[derive(Debug, Clone, PartialEq, Eq)]
pub struct UpdateUserModel {
    pub username: Option<String>,
    pub email: Option<String>,
    pub first_name: Option<String>,
    pub last_name: Option<String>,
    pub avatar_url: Option<Option<String>>,
    pub bio: Option<Option<String>>,
    pub phone: Option<Option<String>>,
}

impl UpdateUserModel {
    /// Whether the update changes nothing at all.
    pub fn is_empty(&self) -> (r: bool)
        ensures
            r == (self.username is None && self.email is None && self.first_name is None
                && self.last_name is None && self.avatar_url is None && self.bio is None
                && self.phone is None),
    {
        self.username.is_none() && self.email.is_none() && self.first_name.is_none()
            && self.last_name.is_none() && self.avatar_url.is_none() && self.bio.is_none()
            && self.phone.is_none()
    }
}

/// The row inserted for a new user.
#[derive(Debug, Clone, PartialEq, Eq)]
pub struct InsertUser {
    pub username: String,
    pub email: String,
    pub hash_password: String,
    pub display_name: String,
}

/// The column updates applied to an existing user.
#[derive(Debug, Clone, PartialEq, Eq)]
pub struct UpdateUser {
    pub username: Option<String>,
    pub email: Option<String>,
    pub display_name: Option<String>,
    pub avatar_url: Option<Option<String>>,
    pub bio: Option<Option<String>>,
    pub phone: Option<Option<String>>,
}

/// The response to a successful sign-in.
#[derive(Debug, Clone, PartialEq, Eq)]
pub struct SignInResponse {
    pub access_token: String,
}

/// A user search request: the query text and an optional result cap.
#[derive(Debug, Clone, PartialEq, Eq)]
pub struct UserSearchQuery {
    pub q: String,
    pub limit: Option<i32>,
}

/// A message sent into an existing group conversation.
#[derive(Debug, Clone, PartialEq, Eq)]
pub struct SendGroupMessage {
    pub content: String,
}

/// File upload limits and storage locations.
#[derive(Debug, Clone, PartialEq, Eq)]
pub struct UploadConfig {
    pub max_file_size: usize,
    pub allowed_mime_types: Vec<String>,
    pub upload_dir: String,
    pub base_url: String,
}

impl Default for UploadConfig {
    /// Ten megabytes, the standard web media types, and the local upload
    /// directory.
    fn default() -> (r: UploadConfig)
        ensures
            r.max_file_size == 10 * 1024 * 1024,
            r.allowed_mime_types@.len() == 6,
            r.allowed_mime_types@[0]@ == "image/jpeg"@,
            r.allowed_mime_types@[1]@ == "image/png"@,
            r.allowed_mime_types@[2]@ == "image/gif"@,
            r.allowed_mime_types@[3]@ == "image/webp"@,
            r.allowed_mime_types@[4]@ == "application/pdf"@,
            r.allowed_mime_types@[5]@ == "text/plain"@,
            r.upload_dir@ == "./uploads"@,
            r.base_url@ == "/uploads"@,
    {
        let mut allowed_mime_types: Vec<String> = Vec::new();
        allowed_mime_types.push("image/jpeg".to_owned());
        allowed_mime_types.push("image/png".to_owned());
        allowed_mime_types.push("image/gif".to_owned());
        allowed_mime_types.push("image/webp".to_owned());
        allowed_mime_types.push("application/pdf".to_owned());
        allowed_mime_types.push("text/plain".to_owned());
        UploadConfig {
            max_file_size: 10 * 1024 * 1024,
            allowed_mime_types,
            upload_dir: "./uploads".to_owned(),
            base_url: "/uploads".to_owned(),
        }
    }
}

/// The service configuration read from the environment at start-up.
#[derive(Debug, Clone, PartialEq, Eq)]
pub struct Env {
    pub jwt_secret: String,
    pub access_token_expiration: u64,
    pub refresh_token_expiration: u64,
    pub database_url: String,
    pub redis_url: String,
    pub frontend_url: String,
    pub ip: String,
    pub port: u16,
}

/// A request body that passed validation.
#[derive(Debug, Clone, PartialEq, Eq)]
pub struct ValidatedJson<T>(pub T);

/// A query string that passed validation.
#[derive(Debug, Clone, PartialEq, Eq)]
pub struct ValidatedQuery<T>(pub T);

} // verus!
