//! Data transfer objects exchanged with the backend.
//!
//! These are plain data carriers; the driver that talks to the network
//! owns their (de)serialization.

use vstd::prelude::*;

verus! {

/// Generic list result wrapper for paginated responses.
#[derive(Debug, Clone)]
pub struct ListResult<T> {
    pub page: u32,
    pub per_page: u32,
    pub total_items: u32,
    pub total_pages: u32,
    pub items: Vec<T>,
}

impl<T> Default for ListResult<T> {
    /// The first page of an empty listing, thirty items per page.
    fn default() -> (r: Self)
        ensures
            r.page == 1,
            r.per_page == 30,
            r.total_items == 0,
            r.total_pages == 0,
            r.items@.len() == 0,
    {
        ListResult {
            page: 1,
            per_page: 30,
            total_items: 0,
            total_pages: 0,
            items: Vec::new(),
        }
    }
}

/// Base model trait for all database models.
pub trait BaseModel {
    fn id(&self) -> &str;
}

/// Token configuration.
#[derive(Debug, Clone, Default)]
pub struct TokenConfig {
    pub duration: u64,
    pub secret: Option<String>,
}

/// Email template configuration.
#[derive(Debug, Clone, Default)]
pub struct EmailTemplate {
    pub subject: String,
    pub body: String,
}

/// Auth alert configuration.
#[derive(Debug, Clone, Default)]
pub struct AuthAlertConfig {
    pub enabled: bool,
    pub email_template: EmailTemplate,
}

/// OTP configuration.
#[derive(Debug, Clone, Default)]
pub struct OTPConfig {
    pub enabled: bool,
    pub duration: u64,
    pub length: u32,
    pub email_template: EmailTemplate,
}

/// MFA configuration.
#[derive(Debug, Clone, Default)]
pub struct MFAConfig {
    pub enabled: bool,
    pub duration: u64,
    pub rule: String,
}

/// Password auth configuration.
#[derive(Debug, Clone, Default)]
pub struct PasswordAuthConfig {
    pub enabled: bool,
    pub identity_fields: Vec<String>,
}

/// Hourly statistics.
#[derive(Debug, Clone, Default)]
pub struct HourlyStats {
    pub total: u64,
    pub date: String,
}

/// Backup file info.
#[derive(Debug, Clone, Default)]
pub struct BackupFileInfo {
    pub key: String,
    pub size: u64,
    pub modified: String,
}

/// Cron job info.
#[derive(Debug, Clone, Default)]
pub struct CronJob {
    pub id: String,
    pub expression: String,
}

/// Auth provider info for OAuth2.
#[derive(Debug, Clone, Default)]
pub struct AuthProviderInfo {
    pub name: String,
    pub display_name: String,
    pub state: String,
    pub auth_url: String,
    pub code_verifier: String,
    pub code_challenge: String,
    pub code_challenge_method: String,
}

/// MFA info in auth methods list.
#[derive(Debug, Clone, Default)]
pub struct MfaInfo {
    pub enabled: bool,
    pub duration: u64,
}

/// OTP info in auth methods list.
#[derive(Debug, Clone, Default)]
pub struct OtpInfo {
    pub enabled: bool,
    pub duration: u64,
}

/// Password info in auth methods list.
#[derive(Debug, Clone, Default)]
pub struct PasswordInfo {
    pub enabled: bool,
    pub identity_fields: Vec<String>,
}

/// OAuth2 info in auth methods list.
#[derive(Debug, Clone, Default)]
pub struct OAuth2Info {
    pub enabled: bool,
    pub providers: Vec<AuthProviderInfo>,
}

/// Available auth methods for a collection.
#[derive(Debug, Clone, Default)]
pub struct AuthMethodsList {
    pub mfa: MfaInfo,
    pub otp: OtpInfo,
    pub password: PasswordInfo,
    pub oauth2: OAuth2Info,
}

/// OTP response.
#[derive(Debug, Clone, Default)]
pub struct OTPResponse {
    pub otp_id: String,
}

/// Apple client secret response.
#[derive(Debug, Clone, Default)]
pub struct AppleClientSecret {
    pub secret: String,
}

/// Error raised by an asynchronous auth store.
#[derive(Debug, Clone)]
pub enum AsyncAuthStoreError {
    /// A storage read or write failed.
    Io(String),
    /// Encoding or decoding the stored state failed.
    Serialization(String),
    /// Any other failure.
    Other(String),
}

impl AsyncAuthStoreError {
    /// The message carried by the error.
    pub fn message(&self) -> (r: &String)
        ensures
            r@ == match self {
                AsyncAuthStoreError::Io(m) => m@,
                AsyncAuthStoreError::Serialization(m) => m@,
                AsyncAuthStoreError::Other(m) => m@,
            },
    {
        match self {
            AsyncAuthStoreError::Io(m) => m,
            AsyncAuthStoreError::Serialization(m) => m,
            AsyncAuthStoreError::Other(m) => m,
        }
    }
}

} // verus!
