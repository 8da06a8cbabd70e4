//! The decisions of an offload: where a discarded file goes, whether it is
//! uploaded, and what its record says once the upload has answered. The
//! upload itself is made by the caller between `prepare_offload` and
//! `complete_offload`.
use vstd::prelude::*;
use vstd::string::*;
use crate::config::{ChannelRef, S3OffloadSettings};
use crate::hints::OffloadResult;
use crate::paths::{
    compute_paths, join, path_components, sanitize_filename, sanitized_filename, session_key,
    session_key_of,
};

verus! {

/// The error recorded when no object store client is available.
pub const UPLOAD_UNAVAILABLE: &'static str = "S3 support is not compiled in";

/// Offloads discarded files into the configured directory of a bucket.
#[derive(Debug, Clone)]
pub struct DiscardedFileOffloader {
    pub settings: S3OffloadSettings,
    pub working_dir: String,
    pub per_session_working_dir: bool,
}

/// What to do with a discarded file.
#[derive(Debug, Clone)]
pub enum OffloadStep {
    /// Put the file's bytes into `bucket` under `object_key`, then complete
    /// `pending` with the outcome.
    Upload { bucket: String, object_key: String, pending: OffloadResult },
    /// Nothing is uploaded; `result` is the final record.
    Skip { result: OffloadResult },
}

/// `r` records, not yet uploaded, the file `filename` at `working_path` and
/// `object_key`.
pub open spec fn is_fresh_record(
    r: OffloadResult,
    filename: Seq<char>,
    working_path: Seq<char>,
    object_key: Seq<char>,
) -> bool {
    &&& r.filename@ == sanitized_filename(filename)
    &&& r.working_path@ == working_path
    &&& r.object_key@ == object_key
    &&& !r.uploaded
}

/// The record `pending` once the upload has answered `outcome`: marked
/// uploaded under the confirmed key, or carrying the error.
pub open spec fn completed(pending: OffloadResult, outcome: Result<String, String>) -> OffloadResult {
    match outcome {
        Ok(key) => OffloadResult { uploaded: true, object_key: key, ..pending },
        Err(e) => OffloadResult { error: Some(e), ..pending },
    }
}

impl DiscardedFileOffloader {
    /// An offloader for `settings`, whose files appear under `working_dir`, in
    /// a directory of their own per session when `per_session_working_dir`.
    pub fn new(settings: S3OffloadSettings, working_dir: String, per_session_working_dir: bool) -> (o:
        Self)
        ensures
            o.settings == settings,
            o.working_dir == working_dir,
            o.per_session_working_dir == per_session_working_dir,
    {
        DiscardedFileOffloader { settings, working_dir, per_session_working_dir }
    }

    /// The session key that partitions the paths: that of the conversation
    /// when per-session directories are on, none otherwise.
    pub open spec fn session_of(&self, channel: ChannelRef) -> Option<Seq<char>> {
        if self.per_session_working_dir {
            Some(
                session_key_of(
                    channel.platform@,
                    channel.channel_id@,
                    channel.thread_id.deep_view(),
                ),
            )
        } else {
            None
        }
    }

    /// The working path of `filename` arriving in `channel`.
    pub open spec fn working_path_of(&self, channel: ChannelRef, filename: Seq<char>) -> Seq<char> {
        "/"@ + join(path_components(self.working_dir@, self.session_of(channel), filename), "/"@)
    }

    /// The object key of `filename` arriving in `channel`.
    pub open spec fn object_key_of(&self, channel: ChannelRef, filename: Seq<char>) -> Seq<char> {
        join(path_components(self.settings.directory@, self.session_of(channel), filename), "/"@)
    }

    /// Decides what happens to the discarded file `filename` that arrived in
    /// `channel`: with a client available it is to be uploaded to the
    /// configured bucket under its object key; without one it is not uploaded,
    /// and its record says why.
    pub fn prepare_offload(&self, channel: &ChannelRef, filename: &str, client_available: bool) -> (step:
        OffloadStep)
        ensures
            client_available <==> step is Upload,
            step matches OffloadStep::Upload { bucket, object_key, pending } ==> {
                &&& bucket@ == self.settings.bucket@
                &&& object_key@ == self.object_key_of(*channel, filename@)
                &&& is_fresh_record(
                    pending,
                    filename@,
                    self.working_path_of(*channel, filename@),
                    self.object_key_of(*channel, filename@),
                )
                &&& pending.error is None
            },
            step matches OffloadStep::Skip { result } ==> {
                &&& is_fresh_record(
                    result,
                    filename@,
                    self.working_path_of(*channel, filename@),
                    self.object_key_of(*channel, filename@),
                )
                &&& result.error.deep_view() == Some(UPLOAD_UNAVAILABLE@)
            },
    {
        let logical_session_key = session_key(channel);
        let session: Option<&str> = if self.per_session_working_dir {
            Some(logical_session_key.as_str())
        } else {
            None
        };
        assert(session.deep_view() == self.session_of(*channel));
        let path = compute_paths(&self.settings, self.working_dir.as_str(), session, filename);
        let result = OffloadResult {
            filename: sanitize_filename(filename),
            working_path: path.working_path.clone(),
            object_key: path.object_key.clone(),
            uploaded: false,
            error: None,
        };
        if !client_available {
            let mut result = result;
            result.error = Some(String::from_str(UPLOAD_UNAVAILABLE));
            return OffloadStep::Skip { result };
        }
        OffloadStep::Upload {
            bucket: self.settings.bucket.clone(),
            object_key: path.object_key,
            pending: result,
        }
    }

    /// The record of an upload once it has answered: on success the file is
    /// marked uploaded under the key that the store confirmed; on failure the
    /// error is recorded. Nothing else changes.
    pub fn complete_offload(pending: OffloadResult, outcome: Result<String, String>) -> (r:
        OffloadResult)
        ensures
            r == completed(pending, outcome),
    {
        let mut result = pending;
        match outcome {
            Ok(object_key) => {
                result.uploaded = true;
                result.object_key = object_key;
            },
            Err(error) => {
                result.error = Some(error);
            },
        }
        result
    }
}

/// The error reported when the object cannot be put:
/// `failed to put S3 object <bucket>/<key>: <detail>`.
pub fn upload_failure_message(bucket: &str, object_key: &str, detail: &str) -> (m: String)
    ensures
        m@ == "failed to put S3 object "@ + bucket@ + "/"@ + object_key@ + ": "@ + detail@,
{
    let mut m = String::from_str("failed to put S3 object ");
    m.append(bucket);
    m.append("/");
    m.append(object_key);
    m.append(": ");
    m.append(detail);
    m
}

/// Whatever the upload answers, the record of a prepared file keeps its file
/// name and working path, and says it was uploaded exactly when the upload
/// succeeded; a failed upload keeps the computed object key and carries the
/// error.
pub proof fn lemma_outcome_recorded(
    pending: OffloadResult,
    outcome: Result<String, String>,
    filename: Seq<char>,
    working_path: Seq<char>,
    object_key: Seq<char>,
)
    requires
        is_fresh_record(pending, filename, working_path, object_key),
    ensures
        completed(pending, outcome).filename@ == sanitized_filename(filename),
        completed(pending, outcome).working_path@ == working_path,
        completed(pending, outcome).uploaded <==> outcome is Ok,
        outcome matches Ok(key) ==> completed(pending, outcome).object_key == key,
        outcome matches Err(e) ==> {
            &&& completed(pending, outcome).object_key@ == object_key
            &&& completed(pending, outcome).error == Some(e)
        },
{
}

/// With per-session directories on, both paths of a file hold the session
/// component, whether or not the message came in a thread: the session key
/// is `<platform>:<thread id>` in a thread and `<platform>:<channel id>`
/// otherwise, and it stands between the configured directories and the file
/// name. With them off, no session component is placed.
pub proof fn lemma_session_directory(
    o: DiscardedFileOffloader,
    channel: ChannelRef,
    filename: Seq<char>,
)
    ensures
        o.per_session_working_dir ==> {
            let key = channel.platform@ + ":"@ + match channel.thread_id {
                Some(t) => t@,
                None => channel.channel_id@,
            };
            &&& o.object_key_of(channel, filename) == join(
                path_components(o.settings.directory@, Some(key), filename),
                "/"@,
            )
            &&& o.working_path_of(channel, filename) == "/"@ + join(
                path_components(o.working_dir@, Some(key), filename),
                "/"@,
            )
        },
        !o.per_session_working_dir ==> {
            &&& o.object_key_of(channel, filename) == join(
                path_components(o.settings.directory@, None, filename),
                "/"@,
            )
            &&& o.working_path_of(channel, filename) == "/"@ + join(
                path_components(o.working_dir@, None, filename),
                "/"@,
            )
        },
{
}

} // verus!
