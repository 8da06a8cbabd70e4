//! The settings of the object store that receives discarded files, and the
//! reference to the conversation a file arrived in.
use vstd::prelude::*;

verus! {

/// The `s3` block of the configuration.
#[derive(Debug, Clone)]
pub struct S3OffloadSettings {
    pub bucket: String,
    pub region: String,
    pub endpoint_url: Option<String>,
    pub force_path_style: bool,
    /// The directory, inside the bucket, under which object keys are made.
    pub directory: String,
    pub access_key_id: Option<String>,
    pub secret_access_key: Option<String>,
    pub session_token: Option<String>,
}

/// Static credentials taken from the settings: access key id, secret access
/// key and, where there is one, a session token.
#[derive(Debug, Clone)]
pub struct StaticCredentials {
    pub access_key_id: String,
    pub secret_access_key: String,
    pub session_token: Option<String>,
}

/// The name under which credentials from the settings are reported.
pub const CREDENTIALS_PROVIDER_NAME: &'static str = "openab-s3-config";

fn clone_opt(o: &Option<String>) -> (r: Option<String>)
    ensures
        r.deep_view() == o.deep_view(),
{
    match o {
        Some(s) => Some(s.clone()),
        None => None,
    }
}

impl S3OffloadSettings {
    /// The credentials that the client is given explicitly: there are some
    /// exactly when both the access key id and the secret access key are set;
    /// otherwise the default provider chain is left to find them.
    pub fn static_credentials(&self) -> (r: Option<StaticCredentials>)
        ensures
            r is Some <==> (self.access_key_id is Some && self.secret_access_key is Some),
            r matches Some(c) ==> {
                &&& Some(c.access_key_id@) == self.access_key_id.deep_view()
                &&& Some(c.secret_access_key@) == self.secret_access_key.deep_view()
                &&& c.session_token.deep_view() == self.session_token.deep_view()
            },
    {
        match (&self.access_key_id, &self.secret_access_key) {
            (Some(id), Some(secret)) => Some(
                StaticCredentials {
                    access_key_id: id.clone(),
                    secret_access_key: secret.clone(),
                    session_token: clone_opt(&self.session_token),
                },
            ),
            _ => None,
        }
    }
}

/// Where a message arrived: the platform, the channel and, in a thread, the
/// thread.
#[derive(Debug, Clone)]
pub struct ChannelRef {
    pub platform: String,
    pub channel_id: String,
    pub thread_id: Option<String>,
}

} // verus!
