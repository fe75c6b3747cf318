//! Segments on their way to S3.
//!
//! An S3 object cannot be appended to once written, so each segment is
//! accumulated in memory and becomes a single object when it is closed. The body
//! is a concatenation of self-contained gzip members, so it downloads and
//! `gunzip`s as an ordinary `.jsonl.gz` file.
//!
//! A failed upload drops its segment and is reported, never propagated: one bad
//! upload cannot stop the writer.

use crate::jsonl_gz;
use crate::object_key;
use crate::object_key::{format_object_key, Clock, ObjectTime};
use crate::text;
use crate::text::{trim, TrimSet};
use std::collections::HashMap;
use vstd::prelude::*;

verus! {

broadcast use vstd::std_specs::hash::group_hash_axioms;

/// How many characters of a random UUID tell one startup from another.
pub const STARTUP_LEN: usize = 8;

/// The media type of an uploaded segment. There is no content encoding: that
/// makes some clients decompress silently, and the `.gz` suffix already says
/// what the object is.
pub const SEGMENT_CONTENT_TYPE: &'static str = "application/gzip";

/// Identity strings baked into object keys to keep writers from colliding.
#[derive(Debug)]
pub struct S3SegmentIdentity {
    pub instance: String,
    pub startup: String,
}

impl Clone for S3SegmentIdentity {
    fn clone(&self) -> (r: Self)
        ensures
            r == *self,
    {
        S3SegmentIdentity { instance: self.instance.clone(), startup: self.startup.clone() }
    }
}

/// A name without the white space around it, unless nothing is left.
pub open spec fn usable_name(name: Option<Seq<char>>) -> Option<Seq<char>> {
    match name {
        Some(s) if text::trimmed(s, TrimSet::WhiteSpace).len() > 0 => Some(
            text::trimmed(s, TrimSet::WhiteSpace),
        ),
        _ => None,
    }
}

/// The name of an instance: the pod name, or the host name of the environment
/// where there is no pod name; where that one is not usable, the host name on
/// file; else `unknown`.
pub open spec fn instance_name(
    pod_name: Option<Seq<char>>,
    hostname: Option<Seq<char>>,
    hostname_file: Option<Seq<char>>,
) -> Seq<char> {
    let from_env = if pod_name is Some {
        pod_name
    } else {
        hostname
    };
    match usable_name(from_env) {
        Some(name) => name,
        None => match usable_name(hostname_file) {
            Some(name) => name,
            None => "unknown"@,
        },
    }
}

/// Whether `s` is a UUID in its simple form: 32 lower-case hexadecimal digits.
pub open spec fn is_simple_uuid(s: Seq<char>) -> bool {
    &&& s.len() == 32
    &&& forall|i: int| 0 <= i < s.len() ==> text::is_lower_hex(#[trigger] s[i])
}

/// Whether `s` tells startups apart: a fixed number of lower-case hexadecimal
/// digits.
pub open spec fn is_startup_token(s: Seq<char>) -> bool {
    &&& s.len() == STARTUP_LEN
    &&& forall|i: int| 0 <= i < s.len() ==> text::is_lower_hex(#[trigger] s[i])
}

/// `uuid::Uuid::new_v4`, written by its `simple` formatter. Claimed: 32 lower-case
/// hexadecimal digits, of which the 13th is `4` (the version) and the 17th one of
/// `8`, `9`, `a` and `b` (the variant). The other digits are random; `new_v4` panics
/// where the system offers no randomness.
#[verifier::external_body]
fn random_simple_uuid() -> (r: String)
    ensures
        is_simple_uuid(r@),
        r@[12] == '4',
        r@[16] == '8' || r@[16] == '9' || r@[16] == 'a' || r@[16] == 'b',
{
    uuid::Uuid::new_v4().simple().to_string()
}

/// Whether `uuid` was drawn at random, by [`random_simple_uuid`]. No other text can
/// be passed off as one.
pub closed spec fn was_drawn(uuid: Seq<char>) -> bool {
    exists|s: String| #[trigger] call_ensures(random_simple_uuid, (), s) && s@ == uuid
}

/// A drawn UUID is one: 32 lower-case hexadecimal digits, with the version and the
/// variant of a random one.
pub proof fn law_a_drawn_uuid_is_random(uuid: Seq<char>)
    requires
        was_drawn(uuid),
    ensures
        is_simple_uuid(uuid),
        uuid[12] == '4',
        uuid[16] == '8' || uuid[16] == '9' || uuid[16] == 'a' || uuid[16] == 'b',
{
}

fn trimmed_name(name: Option<&String>) -> (r: Option<String>)
    ensures
        text::optional_text(r) == usable_name(
            match name {
                Some(s) => Some(s@),
                None => None,
            },
        ),
{
    match name {
        Some(s) => {
            let t = trim(s.as_str(), TrimSet::WhiteSpace);
            if t.unicode_len() > 0 {
                Some(t.to_owned())
            } else {
                None
            }
        },
        None => None,
    }
}

/// Whether `identity` is one that these names resolve to: the instance that they
/// name, with a startup from a UUID that was drawn.
pub open spec fn resolves_to(
    pod_name: Option<Seq<char>>,
    hostname: Option<Seq<char>>,
    hostname_file: Option<Seq<char>>,
    identity: S3SegmentIdentity,
) -> bool {
    &&& identity.instance@ == instance_name(pod_name, hostname, hostname_file)
    &&& exists|uuid: Seq<char>| #[trigger]
        was_drawn(uuid) && identity.startup@ == uuid.take(STARTUP_LEN as int)
}

/// Whatever the names are, a startup is the first eight digits of a UUID that was
/// drawn for it. The names have no part in it: the same draw gives the same startup
/// under any other names.
pub proof fn law_a_startup_is_drawn_whatever_the_names(
    pod_name: Option<Seq<char>>,
    hostname: Option<Seq<char>>,
    hostname_file: Option<Seq<char>>,
    identity: S3SegmentIdentity,
    other_pod_name: Option<Seq<char>>,
    other_hostname: Option<Seq<char>>,
    other_hostname_file: Option<Seq<char>>,
    other: S3SegmentIdentity,
) -> (uuid: Seq<char>)
    requires
        resolves_to(pod_name, hostname, hostname_file, identity),
        other.startup@ == identity.startup@,
        other.instance@ == instance_name(other_pod_name, other_hostname, other_hostname_file),
    ensures
        was_drawn(uuid),
        identity.startup@.len() == 8,
        forall|i: int| 0 <= i < 8 ==> #[trigger] identity.startup@[i] == uuid[i],
        is_startup_token(identity.startup@),
        resolves_to(other_pod_name, other_hostname, other_hostname_file, other),
{
    let uuid = choose|uuid: Seq<char>| #[trigger]
        was_drawn(uuid) && identity.startup@ == uuid.take(STARTUP_LEN as int);
    law_a_drawn_uuid_is_random(uuid);
    uuid
}

impl S3SegmentIdentity {
    /// Resolves the instance name from what the environment and the host say of
    /// it: `POD_NAME`, `HOSTNAME` and `/etc/hostname`. `startup` is random per
    /// call, which is to be made once per process.
    pub fn resolve(
        pod_name: Option<String>,
        hostname: Option<String>,
        hostname_file: Option<String>,
    ) -> (r: S3SegmentIdentity)
        ensures
            r.instance@ == instance_name(
                text::optional_text(pod_name),
                text::optional_text(hostname),
                text::optional_text(hostname_file),
            ),
            is_startup_token(r.startup@),
            exists|uuid: Seq<char>| #[trigger]
                was_drawn(uuid) && r.startup@ == uuid.take(STARTUP_LEN as int),
            resolves_to(
                text::optional_text(pod_name),
                text::optional_text(hostname),
                text::optional_text(hostname_file),
                r,
            ),
    {
        let uuid = random_simple_uuid();
        assert(was_drawn(uuid@));
        S3SegmentIdentity::from_names(pod_name, hostname, hostname_file, uuid.as_str())
    }

    /// [`S3SegmentIdentity::resolve`] for a given UUID in its simple form.
    pub fn from_names(
        pod_name: Option<String>,
        hostname: Option<String>,
        hostname_file: Option<String>,
        uuid: &str,
    ) -> (r: S3SegmentIdentity)
        requires
            is_simple_uuid(uuid@),
        ensures
            r.instance@ == instance_name(
                text::optional_text(pod_name),
                text::optional_text(hostname),
                text::optional_text(hostname_file),
            ),
            r.startup@ == uuid@.take(STARTUP_LEN as int),
            is_startup_token(r.startup@),
    {
        let from_env = match &pod_name {
            Some(name) => Some(name),
            None => hostname.as_ref(),
        };
        let instance = match trimmed_name(from_env) {
            Some(name) => name,
            None => match trimmed_name(hostname_file.as_ref()) {
                Some(name) => name,
                None => "unknown".to_owned(),
            },
        };
        let startup = uuid.substring_char(0, STARTUP_LEN).to_owned();
        S3SegmentIdentity { instance, startup }
    }
}

/// Whether `s` has a character other than white space.
pub open spec fn says_something(s: Seq<char>) -> bool {
    exists|i: int| 0 <= i < s.len() && !text::is_white_space(#[trigger] s[i])
}

/// Who an instance is: a pod name that says something decides alone; without a pod
/// name, a host name of the environment that says something does. Where the one that
/// is set is blank, the other is not asked. Then, and where neither is set, the host
/// name on file decides if it says something; else the instance is `unknown`. The
/// white space around a name is no part of it.
pub proof fn law_who_an_instance_is(
    pod_name: Option<Seq<char>>,
    hostname: Option<Seq<char>>,
    hostname_file: Option<Seq<char>>,
)
    ensures
        ({
            let name = instance_name(pod_name, hostname, hostname_file);
            let by_pod = pod_name is Some && says_something(pod_name->0);
            let by_host = pod_name is None && hostname is Some && says_something(hostname->0);
            let by_file = hostname_file is Some && says_something(hostname_file->0);
            &&& by_pod ==> name == text::trimmed(pod_name->0, TrimSet::WhiteSpace)
            &&& by_host ==> name == text::trimmed(hostname->0, TrimSet::WhiteSpace)
            &&& !by_pod && !by_host && by_file ==> name == text::trimmed(
                hostname_file->0,
                TrimSet::WhiteSpace,
            )
            &&& !by_pod && !by_host && !by_file ==> name == seq!['u', 'n', 'k', 'n', 'o', 'w', 'n']
        }),
{
    reveal_strlit("unknown");
    assert("unknown"@ =~= seq!['u', 'n', 'k', 'n', 'o', 'w', 'n']);
    if let Some(s) = pod_name {
        lemma_blank(s);
    }
    if let Some(s) = hostname {
        lemma_blank(s);
    }
    if let Some(s) = hostname_file {
        lemma_blank(s);
    }
}

proof fn lemma_blank(s: Seq<char>)
    ensures
        text::trimmed(s, TrimSet::WhiteSpace).len() > 0 <==> says_something(s),
{
    let cut = text::law_trimming_takes_off_the_ends_only(s, TrimSet::WhiteSpace);
    if text::trimmed(s, TrimSet::WhiteSpace).len() > 0 {
        let i = cut.0;
        assert(0 <= i < s.len() && !text::is_white_space(s[i]));
    } else {
        assert forall|i: int| 0 <= i < s.len() implies text::is_white_space(#[trigger] s[i]) by {
            assert(TrimSet::WhiteSpace.has(s[i]));
        }
    }
}

/// An instance always has a name, and the name has no white space around it.
pub proof fn law_instance_has_a_name(
    pod_name: Option<Seq<char>>,
    hostname: Option<Seq<char>>,
    hostname_file: Option<Seq<char>>,
)
    ensures
        instance_name(pod_name, hostname, hostname_file).len() > 0,
        !text::is_white_space(instance_name(pod_name, hostname, hostname_file).first()),
        !text::is_white_space(instance_name(pod_name, hostname, hostname_file).last()),
{
    reveal_strlit("unknown");
    if let Some(s) = pod_name {
        text::lemma_trimmed(s, TrimSet::WhiteSpace);
    }
    if let Some(s) = hostname {
        text::lemma_trimmed(s, TrimSet::WhiteSpace);
    }
    if let Some(s) = hostname_file {
        text::lemma_trimmed(s, TrimSet::WhiteSpace);
    }
}

/// Where a sink stores its segments, and as whom.
#[derive(Debug)]
pub struct S3SegmentSinkConfig {
    pub bucket: String,
    pub prefix: String,
    pub identity: S3SegmentIdentity,
}

impl Clone for S3SegmentSinkConfig {
    fn clone(&self) -> (r: Self)
        ensures
            r == *self,
    {
        S3SegmentSinkConfig {
            bucket: self.bucket.clone(),
            prefix: self.prefix.clone(),
            identity: self.identity.clone(),
        }
    }
}

impl S3SegmentSinkConfig {
    /// The key of segment `seq` when it is closed in the hour `t`.
    pub open spec fn key_of(self, seq: u64, t: ObjectTime) -> Seq<char> {
        object_key::object_key(
            self.prefix@,
            t,
            self.identity.instance@,
            self.identity.startup@,
            seq,
        )
    }
}

/// Replicas, and a restarted process that keeps its name, do not overwrite each
/// other's segments: two objects of resolved writers have the same key only if
/// startup and segment number are the same, whatever else differs; under one
/// prefix, only if the instance and the hour are the same too.
pub proof fn law_writers_do_not_overwrite_each_other(
    config1: S3SegmentSinkConfig,
    seq1: u64,
    t1: ObjectTime,
    config2: S3SegmentSinkConfig,
    seq2: u64,
    t2: ObjectTime,
)
    requires
        is_startup_token(config1.identity.startup@),
        is_startup_token(config2.identity.startup@),
        config1.key_of(seq1, t1) == config2.key_of(seq2, t2),
    ensures
        config1.identity.startup@ == config2.identity.startup@,
        seq1 == seq2,
        config1.prefix@ == config2.prefix@ ==> {
            &&& config1.identity.instance@ == config2.identity.instance@
            &&& t1 == t2
        },
{
    object_key::law_startup_and_number_are_in_the_key(
        config1.prefix@,
        t1,
        config1.identity.instance@,
        config1.identity.startup@,
        seq1,
        config2.prefix@,
        t2,
        config2.identity.instance@,
        config2.identity.startup@,
        seq2,
    );
    if config1.prefix@ == config2.prefix@ {
        object_key::law_object_keys_do_not_collide(
            config1.prefix@,
            t1,
            config1.identity.instance@,
            config1.identity.startup@,
            seq1,
            t2,
            config2.identity.instance@,
            config2.identity.startup@,
            seq2,
        );
    }
}

/// A process that is started again does not overwrite what it stored before, though
/// it keeps its name and counts its segments from the start: where the UUIDs that
/// were drawn for two startups begin with different digits, no object of the one has
/// the key of an object of the other.
pub proof fn law_a_restart_does_not_overwrite(
    uuid1: Seq<char>,
    config1: S3SegmentSinkConfig,
    seq1: u64,
    t1: ObjectTime,
    uuid2: Seq<char>,
    config2: S3SegmentSinkConfig,
    seq2: u64,
    t2: ObjectTime,
)
    requires
        was_drawn(uuid1),
        was_drawn(uuid2),
        config1.identity.startup@ == uuid1.take(8),
        config2.identity.startup@ == uuid2.take(8),
        uuid1.take(8) != uuid2.take(8),
    ensures
        config1.key_of(seq1, t1) != config2.key_of(seq2, t2),
{
    law_a_drawn_uuid_is_random(uuid1);
    law_a_drawn_uuid_is_random(uuid2);
    if config1.key_of(seq1, t1) == config2.key_of(seq2, t2) {
        law_writers_do_not_overwrite_each_other(config1, seq1, t1, config2, seq2, t2);
    }
}

/// One object to be put into a bucket.
#[derive(Debug)]
pub struct PutObject {
    pub bucket: String,
    pub key: String,
    pub body: Vec<u8>,
    pub content_type: &'static str,
}

/// What became of a segment that was to be uploaded.
#[derive(Debug)]
pub enum UploadReport {
    /// The object is stored.
    Uploaded { key: String, bytes: usize },
    /// The segment is lost.
    Dropped { key: String, bytes: usize, error: String },
}

impl PutObject {
    /// Whether this stores `body` as segment `seq`, closed in the hour `t`, the
    /// way `config` says.
    pub open spec fn stores(
        self,
        config: S3SegmentSinkConfig,
        seq: u64,
        t: ObjectTime,
        body: Seq<u8>,
    ) -> bool {
        &&& self.bucket@ == config.bucket@
        &&& self.key@ == config.key_of(seq, t)
        &&& self.body@ == body
        &&& self.content_type@ == SEGMENT_CONTENT_TYPE@
    }

    /// The words that a failed request is explained by:
    /// `request trace s3 put_object key={key} size={size}`.
    pub open spec fn spec_context(self) -> Seq<char> {
        "request trace s3 put_object key="@ + self.key@ + " size="@ + text::decimal(
            self.body@.len(),
        )
    }

    /// The words that a failed request is explained by:
    /// `request trace s3 put_object key={key} size={size}`.
    pub fn context(&self) -> (r: String)
        ensures
            r@ == self.spec_context(),
            r@ == "request trace s3 put_object key="@ + self.key@ + " size="@ + text::decimal(
                self.body@.len(),
            ),
    {
        let mut r = "request trace s3 put_object key=".to_owned();
        r.append(self.key.as_str());
        r.append(" size=");
        r.append(text::to_decimal(self.body.len() as u64).as_str());
        r
    }
}

/// A failed request is explained by the key and the size of its object.
pub proof fn law_a_failed_request_names_its_object(object: PutObject) -> (size: Seq<char>)
    ensures
        text::writes_number(size, object.body@.len() as int, 0),
        object.spec_context() == "request trace s3 put_object key="@ + object.key@ + " size="@
            + size,
{
    text::law_numbers_are_written_in_full(object.body@.len(), 0);
    text::decimal(object.body@.len())
}

/// What is reported of an upload of `bytes` bytes under `key`, when `outcome` is what
/// became of it.
pub open spec fn upload_report(
    key: String,
    bytes: usize,
    outcome: Result<(), String>,
) -> UploadReport {
    match outcome {
        Ok(_) => UploadReport::Uploaded { key, bytes },
        Err(error) => UploadReport::Dropped { key, bytes, error },
    }
}

/// An upload is reported as stored exactly where it succeeded, and as dropped, with
/// the reason, where it failed; either way under its key and with its size.
pub proof fn law_a_report_says_what_became_of_an_upload(
    key: String,
    bytes: usize,
    outcome: Result<(), String>,
)
    ensures
        upload_report(key, bytes, outcome) is Uploaded <==> outcome is Ok,
        match upload_report(key, bytes, outcome) {
            UploadReport::Uploaded { key: k, bytes: n } => k@ == key@ && n == bytes,
            UploadReport::Dropped { key: k, bytes: n, error } => {
                &&& k@ == key@
                &&& n == bytes
                &&& outcome is Err
                &&& error@ == outcome->Err_0@
            },
        },
{
}

/// What is reported of an upload of `bytes` bytes under `key`, once the service
/// has answered. Whatever the answer, there is nothing left to do: the segment is
/// not kept, and the failure goes no further.
pub fn settle_upload(key: String, bytes: usize, outcome: Result<(), String>) -> (r: UploadReport)
    ensures
        r == upload_report(key, bytes, outcome),
        r == (match outcome {
            Ok(_) => UploadReport::Uploaded { key, bytes },
            Err(error) => UploadReport::Dropped { key, bytes, error },
        }),
{
    match outcome {
        Ok(_) => UploadReport::Uploaded { key, bytes },
        Err(error) => UploadReport::Dropped { key, bytes, error },
    }
}

/// The segments `pending` after `gz_bytes` was added to segment `seq`.
pub open spec fn appended(pending: Map<u64, Seq<u8>>, seq: u64, gz_bytes: Seq<u8>) -> Map<
    u64,
    Seq<u8>,
> {
    pending.insert(
        seq,
        if pending.contains_key(seq) {
            pending[seq] + gz_bytes
        } else {
            gz_bytes
        },
    )
}

/// Whether closing segment `seq` has something to upload. A segment that never
/// took a member has not.
pub open spec fn has_body(pending: Map<u64, Seq<u8>>, seq: u64) -> bool {
    pending.contains_key(seq) && pending[seq].len() > 0
}

/// The segments `pending` after all of `parts` were added to segment `seq`, in
/// order.
pub open spec fn appended_all(
    pending: Map<u64, Seq<u8>>,
    seq: u64,
    parts: Seq<Seq<u8>>,
) -> Map<u64, Seq<u8>>
    decreases parts.len(),
{
    if parts.len() == 0 {
        pending
    } else {
        appended(appended_all(pending, seq, parts.drop_last()), seq, parts.last())
    }
}

/// A segment is one object: whatever was added to it, piece by piece, is one body
/// in the order of the additions. Other segments are not touched, and a segment
/// that was closed has nothing more to upload.
pub proof fn law_a_segment_is_one_object(
    pending: Map<u64, Seq<u8>>,
    seq: u64,
    parts: Seq<Seq<u8>>,
)
    ensures
        parts.len() > 0 ==> appended_all(pending, seq, parts).contains_key(seq),
        parts.len() > 0 ==> appended_all(pending, seq, parts)[seq] == (if pending.contains_key(
            seq,
        ) {
            pending[seq]
        } else {
            Seq::empty()
        }) + jsonl_gz::concat(parts),
        appended_all(pending, seq, parts).remove(seq) == pending.remove(seq),
        !has_body(appended_all(pending, seq, parts).remove(seq), seq),
    decreases parts.len(),
{
    if parts.len() > 0 {
        law_a_segment_is_one_object(pending, seq, parts.drop_last());
        let before = appended_all(pending, seq, parts.drop_last());
        let after = appended_all(pending, seq, parts);
        let start = if pending.contains_key(seq) {
            pending[seq]
        } else {
            Seq::empty()
        };
        if parts.len() == 1 {
            assert(jsonl_gz::concat(parts.drop_last()) =~= Seq::<u8>::empty());
        }
        assert(after[seq] =~= start + jsonl_gz::concat(parts));
        assert(after.remove(seq) =~= before.remove(seq));
    }
}

/// Accumulates segments until they are closed.
pub struct S3SegmentSink {
    config: S3SegmentSinkConfig,
    segments: HashMap<u64, Vec<u8>>,
    clock: Clock,
}

impl View for S3SegmentSink {
    type V = Map<u64, Seq<u8>>;

    /// The bytes of each segment that has taken some and is not closed.
    closed spec fn view(&self) -> Map<u64, Seq<u8>> {
        self.segments@.map_values(|body: Vec<u8>| body@)
    }
}

impl S3SegmentSink {
    /// Where the segments go.
    pub closed spec fn spec_config(&self) -> S3SegmentSinkConfig {
        self.config
    }

    /// What the clock showed, each time that this sink read it.
    pub closed spec fn spec_clock(&self) -> Seq<i64> {
        self.clock@
    }

    /// A sink that holds nothing.
    pub fn new(config: S3SegmentSinkConfig) -> (r: S3SegmentSink)
        ensures
            r@ == Map::<u64, Seq<u8>>::empty(),
            r.spec_config() == config,
            r.spec_clock() == Seq::<i64>::empty(),
    {
        let r = S3SegmentSink { config, segments: HashMap::new(), clock: Clock::new() };
        assert(r@ =~= Map::<u64, Seq<u8>>::empty());
        r
    }

    /// Where the segments go.
    pub fn config(&self) -> (r: &S3SegmentSinkConfig)
        ensures
            *r == self.spec_config(),
    {
        &self.config
    }

    /// Adds `gz_bytes` at the end of segment `seq`.
    pub fn append_to_segment(&mut self, seq: u64, gz_bytes: Vec<u8>)
        ensures
            final(self)@ == appended(old(self)@, seq, gz_bytes@),
            final(self).spec_config() == old(self).spec_config(),
            final(self).spec_clock() == old(self).spec_clock(),
    {
        let mut body = match self.segments.remove(&seq) {
            Some(body) => body,
            None => Vec::new(),
        };
        let ghost before = body@;
        body.extend_from_slice(gz_bytes.as_slice());
        assert(body@ =~= before + gz_bytes@);
        assert(Seq::<u8>::empty() + gz_bytes@ =~= gz_bytes@);
        self.segments.insert(seq, body);
        assert(self@ =~= appended(old(self)@, seq, gz_bytes@));
    }

    /// Takes what segment `seq` has gathered, if it has gathered anything.
    pub fn take_segment(&mut self, seq: u64) -> (r: Option<Vec<u8>>)
        ensures
            final(self)@ == old(self)@.remove(seq),
            final(self).spec_config() == old(self).spec_config(),
            final(self).spec_clock() == old(self).spec_clock(),
            r is Some <==> has_body(old(self)@, seq),
            r matches Some(body) ==> body@ == old(self)@[seq],
    {
        let removed = self.segments.remove(&seq);
        assert(self@ =~= old(self)@.remove(seq));
        match removed {
            Some(body) => if body.len() == 0 {
                None
            } else {
                Some(body)
            },
            None => None,
        }
    }

    /// Ends segment `seq` now. The object that holds all of it, if it holds
    /// anything, is the caller's to upload. The clock is read for it, once, and its
    /// key names the hour that the clock then showed.
    pub fn close_segment(&mut self, seq: u64) -> (r: Option<PutObject>)
        ensures
            final(self)@ == old(self)@.remove(seq),
            final(self).spec_config() == old(self).spec_config(),
            r is Some <==> has_body(old(self)@, seq),
            r is None ==> final(self).spec_clock() == old(self).spec_clock(),
            r is Some ==> {
                &&& final(self).spec_clock().len() == old(self).spec_clock().len() + 1
                &&& final(self).spec_clock().drop_last() == old(self).spec_clock()
                &&& object_key::clock_showed(final(self).spec_clock().last())
            },
            r matches Some(put) ==> exists|t: ObjectTime| #[trigger]
                t.can_be_now() && t.holds_second(final(self).spec_clock().last() as int)
                    && put.stores(old(self).spec_config(), seq, t, old(self)@[seq]),
    {
        match self.take_segment(seq) {
            Some(body) => {
                let now = self.clock.hour();
                Some(self.upload(seq, now, body))
            },
            None => None,
        }
    }

    /// [`S3SegmentSink::close_segment`] in the hour `now`.
    pub fn close_segment_at(&mut self, seq: u64, now: ObjectTime) -> (r: Option<PutObject>)
        ensures
            final(self)@ == old(self)@.remove(seq),
            final(self).spec_config() == old(self).spec_config(),
            final(self).spec_clock() == old(self).spec_clock(),
            r is Some <==> has_body(old(self)@, seq),
            r matches Some(put) ==> put.stores(old(self).spec_config(), seq, now, old(self)@[seq]),
    {
        match self.take_segment(seq) {
            Some(body) => Some(self.upload(seq, now, body)),
            None => None,
        }
    }

    /// The request that stores `body` as segment `seq`, closed in the hour `now`.
    pub fn upload(&self, seq: u64, now: ObjectTime, body: Vec<u8>) -> (r: PutObject)
        ensures
            r.stores(self.spec_config(), seq, now, body@),
    {
        let key = format_object_key(
            self.config.prefix.as_str(),
            now,
            self.config.identity.instance.as_str(),
            self.config.identity.startup.as_str(),
            seq,
        );
        PutObject {
            bucket: self.config.bucket.clone(),
            key,
            body,
            content_type: SEGMENT_CONTENT_TYPE,
        }
    }
}

} // verus!
