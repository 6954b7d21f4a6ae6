//! Re-streaming state: re-streams of live streams from one input to many
//! outputs, and the rules by which it changes.

use vstd::prelude::*;

use crate::fspath::{extension, is_absolute, parent_is, path_extension, path_parent_is};
use crate::pattern::{is_key, is_label, matches_key, matches_label};
use crate::restreamer::spec::v1 as spec;
use crate::text::{contains_seq, decimal, decimal2, push_char, push_decimal, push_decimal2, str_contains, str_eq};
use crate::weburl::{WebUrl, WebUrlView};

mod input;
mod output;
mod restream;

pub use self::input::{
    endpoint_kicked, endpoints_kicked, input_applied, input_exported, input_find, input_from,
    input_plan, input_switched, input_switched_at, inputs_exported, inputs_find, inputs_from,
    inputs_switched, inputs_switched_at, inputs_updated, kicks, lemma_input_export_made,
    lemma_inputs_export_made, lemma_switch_twice, lemma_switch_twice_all, online, ready_to_serve,
    src_exported, src_from, src_updated, switch_changes, switch_changes_any, FailoverInputSrc,
    Input, InputEndpoint, InputSrc, RemoteInputSrc,
};
pub(crate) use self::input::serves_rtmp;
pub use self::output::{mixin_exported, mixins_made, output_exported, Mixin, Output};
pub use self::restream::{
    all_switched, dst_used, input_changed, key_used, mixin_with_id, mixins_changed, only_at,
    only_output, only_outputs_of, output_with_id, output_without_id, outputs_changed,
    outputs_made, restream_exported, restream_with_id, restream_without_id, rtmp_url_text,
    dsts_unique, keys_unique, output_added, output_edited, restream_added, restream_edited, lemma_add_output_dsts_unique, lemma_add_restream_keys_unique,
    lemma_edit_output_dsts_unique, lemma_edit_restream_keys_unique, lemma_import_export,
    lemma_removed_restreams_gone, lemma_restream_export_made, lemma_switch_output_twice,
    output_ids_unique, output_switched, same_contents,
    restream_ids_unique, Restream, State, StateError,
};

verus! {

/// Whether the given 128 bits are those of a random (version 4) UUID of
/// the RFC 4122 variant: the version field (bits 76 to 79) holds 4 and the
/// variant field (bits 62 and 63) holds the binary `10`.
pub open spec fn is_random_uuid(v: u128) -> bool {
    &&& (v as nat / 0x1000_0000_0000_0000_0000) % 16 == 4
    &&& (v as nat / 0x4000_0000_0000_0000) % 4 == 2
}

/// Makes a random UUID: calls `uuid::Uuid::new_v4` and takes its 128 bits.
/// The crate's source draws 128 random bits and sets in them the version
/// (4, random) and the RFC 4122 variant, as documented; the other bits are
/// random, and nothing is said of them.
#[verifier::external_body]
fn new_uuid() -> (res: u128)
    ensures
        is_random_uuid(res),
{
    uuid::Uuid::new_v4().as_u128()
}

/// Lower-case hexadecimal digit of the given value below 16.
pub open spec fn hex_digit(d: nat) -> char {
    if d < 10 {
        (('0' as nat) + d) as char
    } else {
        (('a' as nat) + d - 10) as char
    }
}

/// The last `n` hexadecimal digits of `v`, most significant first, padded
/// with zeros.
pub open spec fn hex_fixed(v: nat, n: nat) -> Seq<char>
    decreases n,
{
    if n == 0 {
        Seq::empty()
    } else {
        hex_fixed(v / 16, (n - 1) as nat).push(hex_digit(v % 16))
    }
}

/// Hyphenated text of a UUID of the given 128 bits: 32 lower-case
/// hexadecimal digits, most significant first, in groups of 8, 4, 4, 4 and
/// 12 separated by hyphens.
pub open spec fn uuid_text(v: u128) -> Seq<char> {
    let h = hex_fixed(v as nat, 32);
    h.subrange(0, 8) + seq!['-'] + h.subrange(8, 12) + seq!['-'] + h.subrange(12, 16) + seq!['-']
        + h.subrange(16, 20) + seq!['-'] + h.subrange(20, 32)
}

/// Text of a UUID: calls `uuid::Uuid::from_u128` and formats the UUID with
/// its `Display`, which writes it hyphenated in lower case.
#[verifier::external_body]
pub(crate) fn uuid_string(v: u128) -> (res: String)
    ensures
        res@ == uuid_text(v),
{
    uuid::Uuid::from_u128(v).to_string()
}

/// ID of a [`Restream`].
#[derive(Clone, Copy, Debug, PartialEq, Eq, Structural)]
pub struct RestreamId(pub u128);

/// ID of an [`InputEndpoint`].
#[derive(Clone, Copy, Debug, PartialEq, Eq, Structural)]
pub struct EndpointId(pub u128);

/// ID of an [`Input`].
#[derive(Clone, Copy, Debug, PartialEq, Eq, Structural)]
pub struct InputId(pub u128);

/// ID of an [`Output`].
#[derive(Clone, Copy, Debug, PartialEq, Eq, Structural)]
pub struct OutputId(pub u128);

/// ID of a [`Mixin`].
#[derive(Clone, Copy, Debug, PartialEq, Eq, Structural)]
pub struct MixinId(pub u128);

impl RestreamId {
    /// A new random ID: a random (version 4) UUID.
    pub fn random() -> (res: RestreamId)
        ensures
            is_random_uuid(res.0),
    {
        RestreamId(new_uuid())
    }
}

impl EndpointId {
    /// A new random ID: a random (version 4) UUID.
    pub fn random() -> (res: EndpointId)
        ensures
            is_random_uuid(res.0),
    {
        EndpointId(new_uuid())
    }
}

impl InputId {
    /// A new random ID: a random (version 4) UUID.
    pub fn random() -> (res: InputId)
        ensures
            is_random_uuid(res.0),
    {
        InputId(new_uuid())
    }
}

impl OutputId {
    /// A new random ID: a random (version 4) UUID.
    pub fn random() -> (res: OutputId)
        ensures
            is_random_uuid(res.0),
    {
        OutputId(new_uuid())
    }
}

impl MixinId {
    /// A new random ID: a random (version 4) UUID.
    pub fn random() -> (res: MixinId)
        ensures
            is_random_uuid(res.0),
    {
        MixinId(new_uuid())
    }
}

/// ID of an SRS client.
pub type ClientId = u32;

/// Key of a [`Restream`], identifying it and forming its endpoints' URLs:
/// 1 to 20 characters of `[a-z0-9_-]`.
#[derive(Debug)]
pub struct RestreamKey {
    key: String,
}

impl RestreamKey {
    /// Well-formedness: the text is a valid key.
    #[verifier::type_invariant]
    spec fn inv(self) -> bool {
        is_key(self.key@)
    }

    /// Text of this key.
    pub closed spec fn view(self) -> Seq<char> {
        self.key@
    }

    /// Creates a new key if the given text is a valid one.
    pub fn new(val: &str) -> (res: Option<RestreamKey>)
        ensures
            match res {
                Some(k) => is_key(val@) && k.view() == val@,
                None => !is_key(val@),
            },
    {
        if !val.is_empty() && matches_key(val) {
            Some(RestreamKey { key: val.to_owned() })
        } else {
            None
        }
    }

    /// Text of this key.
    pub fn as_str(&self) -> (res: &str)
        ensures
            res@ == self.view(),
            is_key(res@),
    {
        proof {
            use_type_invariant(self);
        }
        self.key.as_str()
    }

    /// Whether this key is the given text.
    pub fn eq(&self, other: &str) -> (res: bool)
        ensures
            res == (self.view() == other@),
    {
        str_eq(self.key.as_str(), other)
    }

    /// Whether two keys are the same.
    pub fn same(&self, other: &RestreamKey) -> (res: bool)
        ensures
            res == (self.view() == other.view()),
    {
        str_eq(self.key.as_str(), other.key.as_str())
    }
}

impl Clone for RestreamKey {
    /// A copy of this key.
    fn clone(&self) -> (res: Self)
        ensures
            res.view() == self.view(),
    {
        proof {
            use_type_invariant(self);
        }
        RestreamKey { key: self.key.clone() }
    }
}

/// Key of an [`Input`], forming its endpoint's URL: 1 to 20 characters of
/// `[a-z0-9_-]`.
#[derive(Debug)]
pub struct InputKey {
    key: String,
}

impl InputKey {
    /// Well-formedness: the text is a valid key.
    #[verifier::type_invariant]
    spec fn inv(self) -> bool {
        is_key(self.key@)
    }

    /// Text of this key.
    pub closed spec fn view(self) -> Seq<char> {
        self.key@
    }

    /// Creates a new key if the given text is a valid one.
    pub fn new(val: &str) -> (res: Option<InputKey>)
        ensures
            match res {
                Some(k) => is_key(val@) && k.view() == val@,
                None => !is_key(val@),
            },
    {
        if !val.is_empty() && matches_key(val) {
            Some(InputKey { key: val.to_owned() })
        } else {
            None
        }
    }

    /// Text of this key.
    pub fn as_str(&self) -> (res: &str)
        ensures
            res@ == self.view(),
            is_key(res@),
    {
        proof {
            use_type_invariant(self);
        }
        self.key.as_str()
    }

    /// Whether this key is the given text.
    pub fn eq(&self, other: &str) -> (res: bool)
        ensures
            res == (self.view() == other@),
    {
        str_eq(self.key.as_str(), other)
    }

    /// Whether two keys are the same.
    pub fn same(&self, other: &InputKey) -> (res: bool)
        ensures
            res == (self.view() == other.view()),
    {
        str_eq(self.key.as_str(), other.key.as_str())
    }
}

impl InputKey {
    /// A key of a text known to be a valid one.
    pub(crate) fn from_valid(val: &str) -> (res: InputKey)
        requires
            is_key(val@),
        ensures
            res.view() == val@,
    {
        InputKey { key: val.to_owned() }
    }
}

impl Clone for InputKey {
    /// A copy of this key.
    fn clone(&self) -> (res: Self)
        ensures
            res.view() == self.view(),
    {
        proof {
            use_type_invariant(self);
        }
        InputKey { key: self.key.clone() }
    }
}

/// Label of a [`Restream`] or an [`Output`]: 1 to 70 characters, none of
/// which is a comma, a line feed, a tab, a carriage return, a form feed or a
/// vertical tab.
#[derive(Debug)]
pub struct Label {
    label: String,
}

impl Label {
    /// Well-formedness: the text is a valid label.
    #[verifier::type_invariant]
    spec fn inv(self) -> bool {
        is_label(self.label@)
    }

    /// Text of this label.
    pub closed spec fn view(self) -> Seq<char> {
        self.label@
    }

    /// Creates a new label if the given text is a valid one.
    pub fn new(val: &str) -> (res: Option<Label>)
        ensures
            match res {
                Some(l) => is_label(val@) && l.view() == val@,
                None => !is_label(val@),
            },
    {
        if !val.is_empty() && matches_label(val) {
            Some(Label { label: val.to_owned() })
        } else {
            None
        }
    }

    /// Text of this label.
    pub fn as_str(&self) -> (res: &str)
        ensures
            res@ == self.view(),
            is_label(res@),
    {
        proof {
            use_type_invariant(self);
        }
        self.label.as_str()
    }
}

impl Clone for Label {
    /// A copy of this label.
    fn clone(&self) -> (res: Self)
        ensures
            res.view() == self.view(),
    {
        proof {
            use_type_invariant(self);
        }
        Label { label: self.label.clone() }
    }
}

/// Whether a URL can be the one of a [`RemoteInputSrc`]: an RTMP one
/// (`rtmp` or `rtmps` scheme) with a host.
pub open spec fn valid_input_src_url(u: WebUrlView) -> bool {
    (u.scheme == "rtmp"@ || u.scheme == "rtmps"@) && u.host is Some
}

/// Whether a URL can be the destination of an [`Output`]: an RTMP, SRT or
/// Icecast one with a host, or a local FLV file directly in the root
/// directory (absolute, without a host, with the `flv` extension, with `/`
/// as its parent and without `/../`).
pub open spec fn valid_output_dst_url(u: WebUrlView) -> bool {
    if u.scheme == "icecast"@ || u.scheme == "rtmp"@ || u.scheme == "rtmps"@ || u.scheme
        == "srt"@ {
        u.host is Some
    } else if u.scheme == "file"@ {
        &&& u.host is None
        &&& u.path.len() > 0 && u.path[0] == '/'
        &&& path_extension(u.path) == Some("flv"@)
        &&& path_parent_is(u.path, "/"@)
        &&& !contains_seq(u.path, "/../"@)
    } else {
        false
    }
}

/// Whether a URL can be the source of a [`Mixin`]: a TeamSpeak one (`ts`
/// scheme), or an HTTP one of an MP3 file, with a host.
pub open spec fn valid_mixin_src_url(u: WebUrlView) -> bool {
    &&& u.host is Some
    &&& (u.scheme == "ts"@ || ((u.scheme == "http"@ || u.scheme == "https"@) && path_extension(
        u.path,
    ) == Some("mp3"@)))
}

/// URL of a [`RemoteInputSrc`]: an RTMP one with a host.
#[derive(Debug)]
pub struct InputSrcUrl {
    url: WebUrl,
}

impl Clone for InputSrcUrl {
    /// A copy of this URL.
    fn clone(&self) -> (res: Self)
        ensures
            res.view() == self.view(),
    {
        proof {
            use_type_invariant(self);
        }
        InputSrcUrl { url: self.url.clone() }
    }
}

impl InputSrcUrl {
    /// Well-formedness: the URL is a valid one.
    #[verifier::type_invariant]
    spec fn inv(self) -> bool {
        valid_input_src_url(self.url@)
    }

    /// The URL.
    pub closed spec fn view(self) -> WebUrlView {
        self.url@
    }

    /// Creates a new input source URL if the given URL is suitable.
    pub fn new(url: WebUrl) -> (res: Option<InputSrcUrl>)
        ensures
            match res {
                Some(u) => valid_input_src_url(url@) && u.view() == url@,
                None => !valid_input_src_url(url@),
            },
    {
        let scheme = url.scheme();
        if (str_eq(scheme, "rtmp") || str_eq(scheme, "rtmps")) && url.has_host() {
            Some(InputSrcUrl { url })
        } else {
            None
        }
    }

    /// The URL.
    pub fn url(&self) -> (res: &WebUrl)
        ensures
            res@ == self.view(),
            valid_input_src_url(res@),
    {
        proof {
            use_type_invariant(self);
        }
        &self.url
    }
}

/// Destination URL of an [`Output`].
#[derive(Debug)]
pub struct OutputDstUrl {
    url: WebUrl,
}

impl Clone for OutputDstUrl {
    /// A copy of this URL.
    fn clone(&self) -> (res: Self)
        ensures
            res.view() == self.view(),
    {
        proof {
            use_type_invariant(self);
        }
        OutputDstUrl { url: self.url.clone() }
    }
}

impl OutputDstUrl {
    /// Well-formedness: the URL is a valid one.
    #[verifier::type_invariant]
    spec fn inv(self) -> bool {
        valid_output_dst_url(self.url@)
    }

    /// The URL.
    pub closed spec fn view(self) -> WebUrlView {
        self.url@
    }

    /// Creates a new destination URL if the given URL is suitable; gives it
    /// back otherwise.
    pub fn new(url: WebUrl) -> (res: Result<OutputDstUrl, WebUrl>)
        ensures
            match res {
                Ok(u) => valid_output_dst_url(url@) && u.view() == url@,
                Err(u) => !valid_output_dst_url(url@) && u@ == url@,
            },
    {
        if Self::validate(&url) {
            Ok(OutputDstUrl { url })
        } else {
            Err(url)
        }
    }

    /// Validates whether the given URL can be the destination of an output.
    pub fn validate(url: &WebUrl) -> (res: bool)
        ensures
            res == valid_output_dst_url(url@),
    {
        let scheme = url.scheme();
        if str_eq(scheme, "icecast") || str_eq(scheme, "rtmp") || str_eq(scheme, "rtmps")
            || str_eq(scheme, "srt") {
            url.has_host()
        } else if str_eq(scheme, "file") {
            let path = url.path();
            let is_flv = match extension(path) {
                Some(e) => str_eq(e.as_str(), "flv"),
                None => false,
            };
            !url.has_host() && is_absolute(path) && is_flv && parent_is(path, "/") && !str_contains(
                path,
                "/../",
            )
        } else {
            false
        }
    }

    /// The URL.
    pub fn url(&self) -> (res: &WebUrl)
        ensures
            res@ == self.view(),
            valid_output_dst_url(res@),
    {
        proof {
            use_type_invariant(self);
        }
        &self.url
    }

    /// Whether two destination URLs are the same, as their texts tell.
    pub fn same(&self, other: &OutputDstUrl) -> (res: bool)
        ensures
            res == (self.view().text == other.view().text),
    {
        str_eq(self.url.as_str(), other.url.as_str())
    }
}

/// Source URL of a [`Mixin`].
#[derive(Debug)]
pub struct MixinSrcUrl {
    url: WebUrl,
}

impl Clone for MixinSrcUrl {
    /// A copy of this URL.
    fn clone(&self) -> (res: Self)
        ensures
            res.view() == self.view(),
    {
        proof {
            use_type_invariant(self);
        }
        MixinSrcUrl { url: self.url.clone() }
    }
}

impl MixinSrcUrl {
    /// Well-formedness: the URL is a valid one.
    #[verifier::type_invariant]
    spec fn inv(self) -> bool {
        valid_mixin_src_url(self.url@)
    }

    /// The URL.
    pub closed spec fn view(self) -> WebUrlView {
        self.url@
    }

    /// Creates a new mixin source URL if the given URL is suitable; gives it
    /// back otherwise.
    pub fn new(url: WebUrl) -> (res: Result<MixinSrcUrl, WebUrl>)
        ensures
            match res {
                Ok(u) => valid_mixin_src_url(url@) && u.view() == url@,
                Err(u) => !valid_mixin_src_url(url@) && u@ == url@,
            },
    {
        if Self::validate(&url) {
            Ok(MixinSrcUrl { url })
        } else {
            Err(url)
        }
    }

    /// Validates whether the given URL can be the source of a mixin.
    pub fn validate(url: &WebUrl) -> (res: bool)
        ensures
            res == valid_mixin_src_url(url@),
    {
        if !url.has_host() {
            return false;
        }
        let scheme = url.scheme();
        if str_eq(scheme, "ts") {
            true
        } else if str_eq(scheme, "http") || str_eq(scheme, "https") {
            match extension(url.path()) {
                Some(e) => str_eq(e.as_str(), "mp3"),
                None => false,
            }
        } else {
            false
        }
    }

    /// The URL.
    pub fn url(&self) -> (res: &WebUrl)
        ensures
            res@ == self.view(),
            valid_mixin_src_url(res@),
    {
        proof {
            use_type_invariant(self);
        }
        &self.url
    }

    /// Whether two source URLs are the same, as their texts tell.
    pub fn same(&self, other: &MixinSrcUrl) -> (res: bool)
        ensures
            res == (self.view().text == other.view().text),
    {
        str_eq(self.url.as_str(), other.url.as_str())
    }
}

/// Status of an [`Input`], an [`Output`] or a [`Mixin`].
#[derive(Clone, Copy, Debug, PartialEq, Eq, Structural)]
pub enum Status {
    /// Inactive: nothing is performed and no media flows.
    Offline,
    /// Initializing: media does not flow as expected yet.
    Initializing,
    /// Active: media flows as expected.
    Online,
}

impl Status {
    /// The default status: offline.
    pub fn default() -> (res: Status)
        ensures
            res == Status::Offline,
    {
        Status::Offline
    }
}

/// Kind of an [`InputEndpoint`].
#[derive(Clone, Copy, Debug, PartialEq, Eq, Structural)]
pub enum InputEndpointKind {
    /// RTMP endpoint: accepts a live stream and serves it.
    Rtmp,
    /// HLS endpoint: only serves a live stream.
    Hls,
}

/// Volume rate of an audio track, in percents: from 0 (off) to 1000.
#[derive(Clone, Copy, Debug, PartialEq, Eq, Structural)]
pub struct Volume {
    rate: u16,
}

impl Volume {
    /// Well-formedness: the rate is at most the maximum one.
    #[verifier::type_invariant]
    spec fn inv(self) -> bool {
        self.rate <= 1000
    }

    /// Rate of this volume, in percents.
    pub closed spec fn rate(self) -> nat {
        self.rate as nat
    }

    /// The maximum volume: 1000%.
    pub fn max() -> (res: Volume)
        ensures
            res.rate() == 1000,
    {
        Volume { rate: 1000 }
    }

    /// The original volume of an audio track: 100%.
    pub fn origin() -> (res: Volume)
        ensures
            res.rate() == 100,
    {
        Volume { rate: 100 }
    }

    /// No volume at all: 0%.
    pub fn off() -> (res: Volume)
        ensures
            res.rate() == 0,
    {
        Volume { rate: 0 }
    }

    /// The default volume: the original one.
    pub fn default() -> (res: Volume)
        ensures
            res.rate() == 100,
    {
        Self::origin()
    }

    /// Creates a new volume of the given rate if it lies within 0 and 1000.
    pub fn new(num: i64) -> (res: Option<Volume>)
        ensures
            match res {
                Some(v) => 0 <= num <= 1000 && v.rate() == num,
                None => !(0 <= num <= 1000),
            },
    {
        if 0 <= num && num <= 1000 {
            Some(Volume { rate: num as u16 })
        } else {
            None
        }
    }

    /// Rate of this volume, in percents.
    pub fn value(&self) -> (res: u16)
        ensures
            res == self.rate(),
            res <= 1000,
    {
        proof {
            use_type_invariant(self);
        }
        self.rate
    }

    /// Displays this volume as a fraction of one: `100%` as `1.00`, `50%` as
    /// `0.50`, and so on.
    pub fn display_as_fraction(self) -> (res: String)
        ensures
            res@ == decimal(self.rate() / 100) + seq!['.'] + decimal2(self.rate() % 100),
    {
        let mut res = String::new();
        push_decimal(&mut res, (self.rate / 100) as u64);
        push_char(&mut res, '.');
        push_decimal2(&mut res, (self.rate % 100) as u64);
        assert(res@ =~= decimal(self.rate() / 100) + seq!['.'] + decimal2(self.rate() % 100));
        res
    }

    /// Whether this volume is the original one.
    pub fn is_origin(&self) -> (res: bool)
        ensures
            res == (self.rate() == 100),
    {
        self.rate == 100
    }
}

/// Delay of a [`Mixin`] before being mixed into an [`Output`], in
/// milliseconds.
#[derive(Clone, Copy, Debug, PartialEq, Eq, Structural)]
pub struct Delay {
    millis: u64,
}

impl Delay {
    /// Milliseconds of this delay.
    pub closed spec fn millis(self) -> nat {
        self.millis as nat
    }

    /// No delay at all.
    pub fn default() -> (res: Delay)
        ensures
            res.millis() == 0,
    {
        Delay { millis: 0 }
    }

    /// Creates a new delay of the given milliseconds, if they are not
    /// negative.
    pub fn from_millis(millis: i64) -> (res: Option<Delay>)
        ensures
            match res {
                Some(d) => millis >= 0 && d.millis() == millis,
                None => millis < 0,
            },
    {
        if millis >= 0 {
            Some(Delay { millis: millis as u64 })
        } else {
            None
        }
    }

    /// Milliseconds of this delay.
    pub fn as_millis(&self) -> (res: i32)
        requires
            self.millis() <= i32::MAX,
        ensures
            res == self.millis(),
    {
        self.millis as i32
    }

    /// Whole milliseconds of this delay, as a duration holds them when it
    /// is written out.
    pub fn total_millis(&self) -> (res: u64)
        ensures
            res == self.millis(),
    {
        self.millis
    }

    /// Whether this delay is no delay at all.
    pub fn is_zero(&self) -> (res: bool)
        ensures
            res == (self.millis() == 0),
    {
        self.millis == 0
    }
}

/// Text of an optional label.
pub open spec fn label_view(l: Option<Label>) -> Option<Seq<char>> {
    match l {
        Some(l) => Some(l.view()),
        None => None,
    }
}

/// A copy of an optional label.
pub(crate) fn clone_label(l: &Option<Label>) -> (res: Option<Label>)
    ensures
        label_view(res) == label_view(*l),
{
    match l {
        Some(l) => Some(l.clone()),
        None => None,
    }
}

} // verus!
