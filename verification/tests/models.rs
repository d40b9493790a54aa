//! Error taxonomy, conflict messages, and the plain data models.

use chat_core::claims::{Claims, TypeClaims};
use chat_core::error::{conflict_message, DbErrorMeta, Error};
use chat_core::models::{UpdateUserModel, UploadConfig, UserRole};

#[test]
fn error_constructors_build_their_variants() {
    assert_eq!(Error::bad_request("a".to_string()), Error::BadRequest("a".to_string()));
    assert_eq!(Error::unauthorized("b".to_string()), Error::Unauthorized("b".to_string()));
    assert_eq!(Error::forbidden("c".to_string()), Error::Forbidden("c".to_string()));
    assert_eq!(Error::not_found("d".to_string()), Error::NotFound("d".to_string()));
    assert_eq!(Error::conflict("e".to_string()), Error::Conflict("e".to_string()));
    assert_eq!(Error::internal_server_error(), Error::InternalServer);
}

fn meta_with_constraint(constraint: Option<&str>) -> Option<DbErrorMeta> {
    Some(DbErrorMeta {
        code: Some("23505".to_string()),
        constraint: constraint.map(|c| c.to_string()),
        message: "duplicate key value violates unique constraint".to_string(),
    })
}

#[test]
fn conflict_message_names_the_constrained_field() {
    let msg = conflict_message(&meta_with_constraint(Some("users_email_key")));
    assert_eq!(msg, "Key already exists");

    let msg = conflict_message(&meta_with_constraint(Some("users_username")));
    assert_eq!(msg, "Username already exists");

    let msg = conflict_message(&meta_with_constraint(Some("email")));
    assert_eq!(msg, "Email already exists");
}

#[test]
fn conflict_message_falls_back_without_metadata() {
    assert_eq!(conflict_message(&None), "Duplicate value");
    assert_eq!(conflict_message(&meta_with_constraint(None)), "Duplicate value");
}

#[test]
fn conflict_message_handles_trailing_underscore() {
    let msg = conflict_message(&meta_with_constraint(Some("users_")));
    assert_eq!(msg, "Value already exists");
}

#[test]
fn update_user_model_is_empty_only_without_any_field() {
    let empty = UpdateUserModel {
        username: None,
        email: None,
        first_name: None,
        last_name: None,
        avatar_url: None,
        bio: None,
        phone: None,
    };
    assert!(empty.is_empty());

    let with_bio = UpdateUserModel { bio: Some(Some("hello".to_string())), ..empty };
    assert!(!with_bio.is_empty());
}

#[test]
fn upload_config_default_allows_standard_media() {
    let config = UploadConfig::default();
    assert_eq!(config.max_file_size, 10 * 1024 * 1024);
    assert_eq!(
        config.allowed_mime_types,
        vec![
            "image/jpeg".to_string(),
            "image/png".to_string(),
            "image/gif".to_string(),
            "image/webp".to_string(),
            "application/pdf".to_string(),
            "text/plain".to_string(),
        ]
    );
    assert_eq!(config.upload_dir, "./uploads");
    assert_eq!(config.base_url, "/uploads");
}

#[test]
fn claims_builders_set_kind_and_token_id() {
    let claims = Claims::new(7, UserRole::Admin, 1_000, 900);
    assert_eq!(claims.sub, 7);
    assert_eq!(claims.iat, 1_000);
    assert_eq!(claims.exp, 1_900);
    assert_eq!(claims.jti, None);
    assert_eq!(claims._type, None);

    let refined = claims.with_jti(42).with_type(TypeClaims::AccessToken);
    assert_eq!(refined.jti, Some(42));
    assert_eq!(refined._type, Some(TypeClaims::AccessToken));
    assert!(refined.is_access_token());

    let refresh = Claims::new(7, UserRole::User, 1_000, 900).with_type(TypeClaims::RefreshToken);
    assert!(!refresh.is_access_token());
}

#[test]
fn user_role_parses_only_canonical_names() {
    assert_eq!(UserRole::try_from("Admin"), Ok(UserRole::Admin));
    assert_eq!(UserRole::try_from("User"), Ok(UserRole::User));
    assert_eq!(UserRole::try_from("admin"), Err(()));
    assert_eq!(UserRole::try_from(""), Err(()));
}

#[test]
fn error_status_codes_match_their_classes() {
    assert_eq!(Error::bad_request("x".to_string()).status_code(), 400);
    assert_eq!(Error::unauthorized("x".to_string()).status_code(), 401);
    assert_eq!(Error::forbidden("x".to_string()).status_code(), 403);
    assert_eq!(Error::not_found("x".to_string()).status_code(), 404);
    assert_eq!(Error::conflict("x".to_string()).status_code(), 409);
    assert_eq!(Error::internal_server_error().status_code(), 500);
}
