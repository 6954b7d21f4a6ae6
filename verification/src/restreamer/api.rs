//! Operations of the GraphQL API of the re-streamer on its state: what each
//! mutation builds and checks before it changes the state, and what the
//! queries give out.

use vstd::prelude::*;

use crate::pattern::is_key;
use crate::restreamer::merge::{
    append_merged, first_where, lemma_first_where, lemma_first_where_none, replace_merged, Mergeable,
};
use crate::restreamer::spec;
use crate::restreamer::state::{
    only_at, output_added, output_edited, restream_added, restream_edited, restream_exported,
    restream_with_id, Delay, InputEndpointKind, InputKey, InputSrcUrl, Label, MixinSrcUrl,
    OutputDstUrl, OutputId, Restream, RestreamId, RestreamKey, State, StateError, Volume,
};
use crate::text::{chars_of, contains_seq, str_contains, str_eq};
use crate::weburl::opt_view;

verus! {

/// Refusal of an API operation.
#[derive(Debug)]
pub enum ApiError {
    /// The specification to apply to one re-stream holds not exactly one.
    InvalidSpec,
    /// A re-stream with this key exists already.
    DuplicateRestreamKey(RestreamKey),
    /// An output with this destination URL exists already in the re-stream.
    DuplicateOutputUrl(OutputDstUrl),
    /// More than 5 mixin URLs are given.
    TooMuchMixinUrls,
    /// This mixin URL is given twice.
    DuplicateMixinUrl(MixinSrcUrl),
    /// More than one TeamSpeak mixin URL is given.
    TooMuchTeamspeakMixinUrls,
    /// A password is set, and the old one is not given.
    NoOldPassword,
    /// The given old password is not the one set.
    WrongOldPassword,
    /// The hash of the password set cannot be decoded.
    InvalidPasswordHash,
    /// The new password cannot be hashed.
    PasswordHashFailed,
    /// The path of a recorded file is absolute or goes up a directory.
    InvalidDvrFilePath,
}

/// The API error for a refused change of the state.
pub open spec fn api_error(e: StateError) -> ApiError {
    match e {
        StateError::RestreamKeyUsed(k) => ApiError::DuplicateRestreamKey(k),
        StateError::OutputDstUsed(u) => ApiError::DuplicateOutputUrl(u),
    }
}

/// The API answer for the result of adding a re-stream.
pub open spec fn added_answer(r: Result<(), StateError>) -> Result<Option<bool>, ApiError> {
    match r {
        Ok(_) => Ok(Some(true)),
        Err(e) => Err(api_error(e)),
    }
}

/// The API answer for the result of an edit, or of adding an output.
pub open spec fn edited_answer(r: Result<Option<()>, StateError>) -> Result<Option<bool>, ApiError> {
    match r {
        Ok(None) => Ok(None),
        Ok(Some(_)) => Ok(Some(true)),
        Err(e) => Err(api_error(e)),
    }
}

/// Maps a refused change of the state to its API error.
fn to_api_error(e: StateError) -> (res: ApiError)
    ensures
        res == api_error(e),
{
    match e {
        StateError::RestreamKeyUsed(k) => ApiError::DuplicateRestreamKey(k),
        StateError::OutputDstUsed(u) => ApiError::DuplicateOutputUrl(u),
    }
}

/// Root of the GraphQL mutations.
#[derive(Clone, Copy, Debug)]
pub struct MutationsRoot;

/// Root of the GraphQL queries.
#[derive(Clone, Copy, Debug)]
pub struct QueriesRoot;

/// Parameters that the server operates with.
#[derive(Debug)]
pub struct Info {
    /// Host that the server is reachable at in public.
    pub public_host: String,
    /// Hash of the password protecting the API, if any.
    pub password_hash: Option<String>,
}

/// Whether the source `src` pulls from the URL `url`, or is none when there
/// is no URL.
pub open spec fn pulled_from(src: Option<spec::v1::InputSrc>, url: Option<InputSrcUrl>) -> bool {
    match url {
        None => src is None,
        Some(u) => src == Some(spec::v1::InputSrc::RemoteUrl(u)),
    }
}

/// Whether the input `i` is an enabled failover input with the given key,
/// one RTMP endpoint, and pulling from the URL `url`, if any.
pub open spec fn failover_input_of(i: spec::v1::Input, key: Seq<char>, url: Option<InputSrcUrl>) -> bool {
    &&& i.key.view() == key
    &&& i.endpoints@.len() == 1
    &&& i.endpoints@[0].kind == InputEndpointKind::Rtmp
    &&& pulled_from(i.src, url)
    &&& i.enabled
}

/// Whether `s` is the specification of a re-stream that `set_restream`
/// builds: the given key and label, no outputs, and an enabled `origin`
/// input with an RTMP endpoint (and an HLS one, `with_hls`), pulling from
/// `src` or, `with_backup`, failing over from a `main` input pulling from
/// `src` to a `backup` one pulling from `backup_src`.
pub open spec fn restream_spec_of(
    s: spec::v1::Restream,
    key: RestreamKey,
    label: Option<Label>,
    src: Option<InputSrcUrl>,
    backup_src: Option<InputSrcUrl>,
    with_backup: bool,
    with_hls: bool,
) -> bool {
    &&& s.key == key
    &&& s.label == label
    &&& s.outputs@.len() == 0
    &&& s.input.key.view() == "origin"@
    &&& s.input.enabled
    &&& s.input.endpoints@.len() == (if with_hls {
        2int
    } else {
        1int
    })
    &&& s.input.endpoints@[0].kind == InputEndpointKind::Rtmp
    &&& with_hls ==> s.input.endpoints@[1].kind == InputEndpointKind::Hls
    &&& if with_backup {
        &&& s.input.src matches Some(spec::v1::InputSrc::FailoverInputs(v))
        &&& v@.len() == 2
        &&& failover_input_of(v@[0], "main"@, src)
        &&& failover_input_of(v@[1], "backup"@, backup_src)
    } else {
        pulled_from(s.input.src, src)
    }
}

/// Source pulling from the URL, if any.
fn remote_src(url: Option<InputSrcUrl>) -> (res: Option<spec::v1::InputSrc>)
    ensures
        pulled_from(res, url),
{
    match url {
        Some(u) => Some(spec::v1::InputSrc::RemoteUrl(u)),
        None => None,
    }
}

/// An enabled failover input with the given key and one RTMP endpoint,
/// pulling from the URL, if any.
fn failover_input(key: InputKey, url: Option<InputSrcUrl>) -> (res: spec::v1::Input)
    ensures
        failover_input_of(res, key.view(), url),
{
    let mut endpoints: Vec<spec::v1::InputEndpoint> = Vec::new();
    endpoints.push(spec::v1::InputEndpoint { kind: InputEndpointKind::Rtmp });
    spec::v1::Input { key, endpoints, src: remote_src(url), enabled: true }
}

/// Whether every character of the literal text is a valid key character.
proof fn lemma_literal_keys()
    ensures
        is_key("main"@),
        is_key("backup"@),
        is_key("origin"@),
{
    reveal_strlit("main");
    reveal_strlit("backup");
    reveal_strlit("origin");
    assert(is_key("main"@));
    assert(is_key("backup"@));
    assert(is_key("origin"@));
}

/// Property of a mixin URL of being a TeamSpeak one.
pub open spec fn is_teamspeak(u: MixinSrcUrl) -> bool {
    u.view().scheme == "ts"@
}

/// Whether the mixin of the specification `m` is the one that `set_output`
/// builds for the URL `src`: the original volume, and a delay of 3.5 s for
/// a TeamSpeak URL or none for another.
pub open spec fn mixin_spec_of(m: spec::v1::Mixin, src: MixinSrcUrl) -> bool {
    &&& m.src == src
    &&& m.volume.rate() == 100
    &&& m.delay.millis() == (if is_teamspeak(src) {
        3500nat
    } else {
        0nat
    })
}

/// Whether `s` is the specification of an output that `set_output` builds:
/// the given destination and label, the original volume, disabled, and one
/// mixin per given URL, in order.
pub open spec fn output_spec_of(
    s: spec::v1::Output,
    dst: OutputDstUrl,
    label: Option<Label>,
    mixins: Seq<MixinSrcUrl>,
) -> bool {
    &&& s.dst == dst
    &&& s.label == label
    &&& s.volume.rate() == 100
    &&& !s.enabled
    &&& s.mixins@.len() == mixins.len()
    &&& forall|m: int| 0 <= m < mixins.len() ==> mixin_spec_of(#[trigger] s.mixins@[m], mixins[m])
}

/// Whether the `i`-th of the mixin URLs repeats an earlier one (by text),
/// and no URL before it does.
pub open spec fn is_first_duplicate(ms: Seq<MixinSrcUrl>, i: int) -> bool {
    &&& 0 <= i < ms.len()
    &&& exists|j: int| 0 <= j < i && (#[trigger] ms[j]).view().text == ms[i].view().text
    &&& forall|k: int, j: int|
        0 <= j < k < i ==> (#[trigger] ms[j]).view().text != (#[trigger] ms[k]).view().text
}

/// Whether two of the mixin URLs are TeamSpeak ones.
pub open spec fn two_teamspeak(ms: Seq<MixinSrcUrl>) -> bool {
    exists|i: int, j: int|
        0 <= i < j < ms.len() && is_teamspeak(#[trigger] ms[i]) && is_teamspeak(#[trigger] ms[j])
}

/// The first of the mixin URLs that repeats an earlier one, if any.
fn find_duplicate(ms: &Vec<MixinSrcUrl>) -> (res: Option<usize>)
    ensures
        match res {
            Some(i) => is_first_duplicate(ms@, i as int),
            None => forall|k: int, j: int|
                0 <= j < k < ms@.len() ==> (#[trigger] ms@[j]).view().text != (#[trigger] ms@[
                    k
                ]).view().text,
        },
{
    let mut i: usize = 0;
    while i < ms.len()
        invariant
            i <= ms@.len(),
            forall|k: int, j: int|
                0 <= j < k < i ==> (#[trigger] ms@[j]).view().text != (#[trigger] ms@[k]).view().text,
        decreases ms@.len() - i,
    {
        let mut j: usize = 0;
        while j < i
            invariant
                j <= i < ms@.len(),
                forall|m: int| 0 <= m < j ==> (#[trigger] ms@[m]).view().text != ms@[i as int].view().text,
                forall|k: int, j: int|
                    0 <= j < k < i ==> (#[trigger] ms@[j]).view().text != (#[trigger] ms@[k]).view().text,
            decreases i - j,
        {
            if ms[j].same(&ms[i]) {
                assert(ms@[j as int].view().text == ms@[i as int].view().text);
                return Some(i);
            }
            j = j + 1;
        }
        i = i + 1;
    }
    None
}

/// Whether two of the mixin URLs are TeamSpeak ones.
fn has_two_teamspeak(ms: &Vec<MixinSrcUrl>) -> (res: bool)
    ensures
        res == two_teamspeak(ms@),
{
    let mut seen: Option<usize> = None;
    let mut k: usize = 0;
    while k < ms.len()
        invariant
            k <= ms@.len(),
            match seen {
                None => forall|m: int| 0 <= m < k ==> !is_teamspeak(#[trigger] ms@[m]),
                Some(f) => f < k && is_teamspeak(ms@[f as int]),
            },
            forall|i: int, j: int|
                0 <= i < j < k ==> !(is_teamspeak(#[trigger] ms@[i]) && is_teamspeak(
                    #[trigger] ms@[j],
                )),
        decreases ms@.len() - k,
    {
        if str_eq(ms[k].url().scheme(), "ts") {
            match seen {
                Some(f) => {
                    assert(is_teamspeak(ms@[f as int]) && is_teamspeak(ms@[k as int]));
                    return true;
                },
                None => {
                    seen = Some(k);
                },
            }
        }
        k = k + 1;
    }
    false
}

/// Makes the mixin that `set_output` builds for the URL.
fn mixin_spec(src: MixinSrcUrl) -> (res: spec::v1::Mixin)
    ensures
        mixin_spec_of(res, src),
{
    let delay = if str_eq(src.url().scheme(), "ts") {
        match Delay::from_millis(3500) {
            Some(d) => d,
            None => Delay::default(),
        }
    } else {
        Delay::default()
    };
    spec::v1::Mixin { src, volume: Volume::origin(), delay }
}

impl MutationsRoot {
    /// Builds the specification of a re-stream that `set_restream` sets.
    pub fn restream_spec(
        key: RestreamKey,
        label: Option<Label>,
        src: Option<InputSrcUrl>,
        backup_src: Option<InputSrcUrl>,
        with_backup: bool,
        with_hls: bool,
    ) -> (res: spec::v1::Restream)
        ensures
            restream_spec_of(res, key, label, src, backup_src, with_backup, with_hls),
    {
        proof {
            lemma_literal_keys();
        }
        let input_src = if with_backup {
            let main = failover_input(InputKey::from_valid("main"), src);
            let backup = failover_input(InputKey::from_valid("backup"), backup_src);
            let mut inputs: Vec<spec::v1::Input> = Vec::new();
            inputs.push(main);
            inputs.push(backup);
            Some(spec::v1::InputSrc::FailoverInputs(inputs))
        } else {
            remote_src(src)
        };
        let mut endpoints: Vec<spec::v1::InputEndpoint> = Vec::new();
        endpoints.push(spec::v1::InputEndpoint { kind: InputEndpointKind::Rtmp });
        if with_hls {
            endpoints.push(spec::v1::InputEndpoint { kind: InputEndpointKind::Hls });
        }
        spec::v1::Restream {
            key,
            label,
            input: spec::v1::Input {
                key: InputKey::from_valid("origin"),
                endpoints,
                src: input_src,
                enabled: true,
            },
            outputs: Vec::new(),
        }
    }

    /// Sets a new re-stream, or edits the one with the given ID: builds its
    /// specification by [`MutationsRoot::restream_spec`], and adds it (or
    /// applies it to the re-stream) unless another re-stream has its key.
    /// Returns `None` if there is no re-stream with the given ID.
    pub fn set_restream(
        key: RestreamKey,
        label: Option<Label>,
        src: Option<InputSrcUrl>,
        backup_src: Option<InputSrcUrl>,
        with_backup: bool,
        with_hls: bool,
        id: Option<RestreamId>,
        state: &mut State,
    ) -> (res: Result<Option<bool>, ApiError>)
        ensures
            match id {
                None => exists|s: spec::v1::Restream, r: Result<(), StateError>|
                    {
                        &&& restream_spec_of(s, key, label, src, backup_src, with_backup, with_hls)
                        &&& #[trigger] restream_added(*old(state), *final(state), s, r)
                        &&& res == added_answer(r)
                    },
                Some(id) => exists|s: spec::v1::Restream, r: Result<Option<()>, StateError>|
                    {
                        &&& restream_spec_of(s, key, label, src, backup_src, with_backup, with_hls)
                        &&& #[trigger] restream_edited(*old(state), *final(state), id, s, r)
                        &&& res == edited_answer(r)
                    },
            },
    {
        let s = Self::restream_spec(key, label, src, backup_src, with_backup, with_hls);
        let ghost s0 = s;
        match id {
            None => {
                let r = state.add_restream(s);
                let ghost r0 = r;
                let res = match r {
                    Ok(_) => Ok(Some(true)),
                    Err(e) => Err(to_api_error(e)),
                };
                assert(restream_added(*old(state), *state, s0, r0));
                res
            },
            Some(id) => {
                let r = state.edit_restream(id, s);
                let ghost r0 = r;
                let res = match r {
                    Ok(None) => Ok(None),
                    Ok(Some(_)) => Ok(Some(true)),
                    Err(e) => Err(to_api_error(e)),
                };
                assert(restream_edited(*old(state), *state, id, s0, r0));
                res
            },
        }
    }

    /// Builds the specification of an output that `set_output` sets, unless
    /// more than 5 mixin URLs are given, one of them twice, or more than one
    /// TeamSpeak one.
    pub fn output_spec(dst: OutputDstUrl, label: Option<Label>, mixins: Vec<MixinSrcUrl>) -> (res:
        Result<spec::v1::Output, ApiError>)
        ensures
            if mixins@.len() > 5 {
                res matches Err(ApiError::TooMuchMixinUrls)
            } else if exists|i: int| is_first_duplicate(mixins@, i) {
                res matches Err(ApiError::DuplicateMixinUrl(u)) && exists|i: int|
                    is_first_duplicate(mixins@, i) && u.view().text == (#[trigger] mixins@[i]).view().text
            } else if two_teamspeak(mixins@) {
                res matches Err(ApiError::TooMuchTeamspeakMixinUrls)
            } else {
                res matches Ok(s) && output_spec_of(s, dst, label, mixins@)
            },
    {
        if mixins.len() > 5 {
            return Err(ApiError::TooMuchMixinUrls);
        }
        if let Some(i) = find_duplicate(&mixins) {
            let mut mixins = mixins;
            let ghost ms = mixins@;
            let dup = mixins.swap_remove(i);
            assert(is_first_duplicate(ms, i as int));
            return Err(ApiError::DuplicateMixinUrl(dup));
        }
        proof {
            assert forall|i: int| !is_first_duplicate(mixins@, i) by {
                if 0 <= i < mixins@.len() && exists|j: int|
                    0 <= j < i && (#[trigger] mixins@[j]).view().text == mixins@[i].view().text {
                    let j = choose|j: int|
                        0 <= j < i && (#[trigger] mixins@[j]).view().text == mixins@[i].view().text;
                    assert(mixins@[j].view().text != mixins@[i].view().text);
                }
            }
        }
        if has_two_teamspeak(&mixins) {
            return Err(ApiError::TooMuchTeamspeakMixinUrls);
        }
        let ghost all = mixins@;
        let mut rest = mixins;
        let mut specs: Vec<spec::v1::Mixin> = Vec::new();
        while rest.len() > 0
            invariant
                specs@.len() <= all.len(),
                rest@ == all.skip(specs@.len() as int),
                forall|m: int| 0 <= m < specs@.len() ==> mixin_spec_of(#[trigger] specs@[m], all[m]),
            decreases rest@.len(),
        {
            let ghost i = specs@.len() as int;
            let u = rest.remove(0);
            assert(u == all[i]);
            specs.push(mixin_spec(u));
            assert(rest@ =~= all.skip(specs@.len() as int));
        }
        Ok(spec::v1::Output { dst, label, volume: Volume::origin(), mixins: specs, enabled: false })
    }

    /// Sets a new output of the re-stream with the given ID, or edits its
    /// output with the given ID: builds its specification by
    /// [`MutationsRoot::output_spec`], and adds it (or applies it to the
    /// output) unless another output of the re-stream has its destination
    /// URL. Returns `None` if there is no such re-stream or output.
    pub fn set_output(
        restream_id: RestreamId,
        dst: OutputDstUrl,
        label: Option<Label>,
        mixins: Vec<MixinSrcUrl>,
        id: Option<OutputId>,
        state: &mut State,
    ) -> (res: Result<Option<bool>, ApiError>)
        ensures
            if mixins@.len() > 5 {
                res matches Err(ApiError::TooMuchMixinUrls) && *final(state) == *old(state)
            } else if exists|i: int| is_first_duplicate(mixins@, i) {
                *final(state) == *old(state) && (res matches Err(ApiError::DuplicateMixinUrl(u))
                    && exists|i: int|
                    is_first_duplicate(mixins@, i) && u.view().text == (#[trigger] mixins@[i]).view().text)
            } else if two_teamspeak(mixins@) {
                res matches Err(ApiError::TooMuchTeamspeakMixinUrls) && *final(state) == *old(state)
            } else {
                match id {
                    None => exists|s: spec::v1::Output, r: Result<Option<()>, StateError>|
                        {
                            &&& output_spec_of(s, dst, label, mixins@)
                            &&& #[trigger] output_added(*old(state), *final(state), restream_id, s, r)
                            &&& res == edited_answer(r)
                        },
                    Some(id) => exists|s: spec::v1::Output, r: Result<Option<()>, StateError>|
                        {
                            &&& output_spec_of(s, dst, label, mixins@)
                            &&& #[trigger] output_edited(
                                *old(state),
                                *final(state),
                                restream_id,
                                id,
                                s,
                                r,
                            )
                            &&& res == edited_answer(r)
                        },
                }
            },
    {
        let s = match Self::output_spec(dst, label, mixins) {
            Ok(s) => s,
            Err(e) => {
                return Err(e);
            },
        };
        let ghost s0 = s;
        let r = match id {
            None => state.add_output(restream_id, s),
            Some(id) => state.edit_output(restream_id, id, s),
        };
        let ghost r0 = r;
        let res = match r {
            Ok(None) => Ok(None),
            Ok(Some(_)) => Ok(Some(true)),
            Err(e) => Err(to_api_error(e)),
        };
        proof {
            match id {
                None => {
                    assert(output_added(*old(state), *state, restream_id, s0, r0));
                },
                Some(id) => {
                    assert(output_edited(*old(state), *state, restream_id, id, s0, r0));
                },
            }
        }
        res
    }

    /// Applies the given specification to the state: to all the re-streams,
    /// or to the re-stream with the given ID only, in which case the
    /// specification must hold exactly one re-stream. Re-streams, outputs
    /// and mixins are replaced by the specified ones if `replace` is `true`,
    /// or else merged with them. Returns `None` if there is no re-stream with
    /// the given ID.
    pub fn import(spec: spec::Spec, replace: bool, restream_id: Option<RestreamId>, state: &mut State) -> (res:
        Result<Option<bool>, ApiError>)
        ensures
            ({
                let v = spec->V1_0;
                match restream_id {
                    None => {
                        &&& res matches Ok(Some(true))
                        &&& final(state).password_hash == old(state).password_hash
                        &&& if replace {
                            replace_merged(old(state).restreams@, v.restreams@, final(state).restreams@)
                        } else {
                            append_merged(old(state).restreams@, v.restreams@, final(state).restreams@)
                        }
                    },
                    Some(id) => if v.restreams@.len() != 1 {
                        res matches Err(ApiError::InvalidSpec) && *final(state) == *old(state)
                    } else {
                        match first_where(old(state).restreams@, restream_with_id(id)) {
                            None => res matches Ok(None) && *final(state) == *old(state),
                            Some(j) => {
                                &&& res matches Ok(Some(true))
                                &&& final(state).password_hash == old(state).password_hash
                                &&& only_at(final(state).restreams@, old(state).restreams@, j)
                                &&& final(state).restreams@[j].updated(
                                    old(state).restreams@[j],
                                    v.restreams@[0],
                                    replace,
                                )
                            },
                        }
                    },
                }
            }),
    {
        let v = spec.into_v1();
        match restream_id {
            None => {
                state.apply(v, replace);
                Ok(Some(true))
            },
            Some(id) => {
                if v.restreams.len() != 1 {
                    return Err(ApiError::InvalidSpec);
                }
                let mut restreams = v.restreams;
                let one = restreams.remove(0);
                let j = match find_restream_index(&state.restreams, id) {
                    None => {
                        return Ok(None);
                    },
                    Some(j) => j,
                };
                let ghost rs = state.restreams@;
                state.restreams[j].apply(one, replace);
                assert(state.restreams@ =~= rs.update(j as int, state.restreams@[j as int]));
                Ok(Some(true))
            },
        }
    }

    /// Checks the path of a recorded file to remove: refused if it is
    /// absolute or goes up a directory.
    pub fn check_dvr_file_path(path: &str) -> (res: Result<(), ApiError>)
        ensures
            match res {
                Ok(_) => dvr_path_ok(path@),
                Err(e) => !dvr_path_ok(path@) && e == ApiError::InvalidDvrFilePath,
            },
    {
        let cs = chars_of(path);
        if (cs.len() > 0 && cs[0] == '/') || str_contains(path, "../") {
            return Err(ApiError::InvalidDvrFilePath);
        }
        Ok(())
    }

    /// Sets a new password, or unsets it when none is given. Where a
    /// password is set, the old one must be given and match it. Returns
    /// whether anything has changed.
    pub fn set_password(new: Option<String>, old_password: Option<String>, state: &mut State) -> (res:
        Result<bool, ApiError>)
        ensures
            final(state).restreams == old(state).restreams,
            (password_refusal(old(state).password_hash, old_password) is None && new is Some
                && 4 * new->Some_0@.len() <= 0xFFFF_FFFF) ==> res == Ok::<bool, ApiError>(true),
            match password_refusal(old(state).password_hash, old_password) {
                Some(e) => res == Err::<bool, ApiError>(e) && *final(state) == *old(state),
                None => if old(state).password_hash is None && new is None {
                    res == Ok::<bool, ApiError>(false) && *final(state) == *old(state)
                } else {
                    match new {
                        None => res == Ok::<bool, ApiError>(true) && final(state).password_hash is None,
                        Some(v) => {
                            ||| {
                                &&& res == Ok::<bool, ApiError>(true)
                                &&& final(state).password_hash matches Some(h)
                                &&& exists|salt: Seq<u8>|
                                    salt.len() == 32 && #[trigger] password_hashed(v@, salt) == Some(h@)
                            }
                            ||| {
                                &&& res == Err::<bool, ApiError>(ApiError::PasswordHashFailed)
                                &&& *final(state) == *old(state)
                                &&& exists|salt: Seq<u8>|
                                    salt.len() == 32 && #[trigger] password_hashed(v@, salt) is None
                            }
                        },
                    }
                },
            },
    {
        if let Some(hash) = &state.password_hash {
            match &old_password {
                None => {
                    return Err(ApiError::NoOldPassword);
                },
                Some(pass) => match verify_password(hash.as_str(), pass.as_str()) {
                    Some(true) => {},
                    Some(false) => {
                        return Err(ApiError::WrongOldPassword);
                    },
                    None => {
                        return Err(ApiError::InvalidPasswordHash);
                    },
                },
            }
        }
        if state.password_hash.is_none() && new.is_none() {
            return Ok(false);
        }
        match new {
            None => {
                state.password_hash = None;
                Ok(true)
            },
            Some(v) => {
                let salt = random_salt();
                match hash_password(v.as_str(), &salt) {
                    Some(h) => {
                        state.password_hash = Some(h);
                        Ok(true)
                    },
                    None => Err(ApiError::PasswordHashFailed),
                }
            },
        }
    }
}

/// Index of the first re-stream with the given ID.
fn find_restream_index(rs: &Vec<Restream>, id: RestreamId) -> (res: Option<usize>)
    ensures
        match res {
            Some(j) => first_where(rs@, restream_with_id(id)) == Some(j as int),
            None => first_where(rs@, restream_with_id(id)) is None,
        },
{
    let mut k: usize = 0;
    while k < rs.len()
        invariant
            k <= rs@.len(),
            forall|m: int| 0 <= m < k ==> !restream_with_id(id)(#[trigger] rs@[m]),
        decreases rs@.len() - k,
    {
        if rs[k].id == id {
            proof {
                lemma_first_where(rs@, restream_with_id(id), k as int);
            }
            return Some(k);
        }
        k = k + 1;
    }
    proof {
        lemma_first_where_none(rs@, restream_with_id(id));
    }
    None
}

/// Whether the path of a recorded file is neither absolute nor going up a
/// directory.
pub open spec fn dvr_path_ok(path: Seq<char>) -> bool {
    &&& !(path.len() > 0 && path[0] == '/')
    &&& !contains_seq(path, "../"@)
}

/// Whether a request to the API is let through: always when no password is
/// set, else when it brings a password that the set hash accepts.
pub open spec fn authorized(hash: Option<String>, pass: Option<Seq<char>>) -> bool {
    match hash {
        None => true,
        Some(h) => match pass {
            Some(p) => password_check(h@, p) == Some(true),
            None => false,
        },
    }
}

/// Whether a request to the API with the given password (from HTTP Basic
/// auth, if any) is let through.
pub fn authorize(state: &State, password: Option<&str>) -> (res: bool)
    ensures
        res == authorized(
            state.password_hash,
            match password {
                Some(p) => Some(p@),
                None => None,
            },
        ),
{
    match &state.password_hash {
        None => true,
        Some(h) => match password {
            Some(p) => match verify_password(h.as_str(), p) {
                Some(ok) => ok,
                None => false,
            },
            None => false,
        },
    }
}

/// Whether the password `pass` matches the encoded hash `hash`, as
/// `argon2::verify_encoded` decides; `None` when the hash cannot be decoded.
pub uninterp spec fn password_check(hash: Seq<char>, pass: Seq<char>) -> Option<bool>;

/// Encoded hash of the password `pass` with the salt `salt`, as
/// `argon2::hash_encoded` makes it with the default configuration; `None`
/// when it fails.
pub uninterp spec fn password_hashed(pass: Seq<char>, salt: Seq<u8>) -> Option<Seq<char>>;

/// Why the password cannot be changed, if it cannot: where a password is
/// set, the old one must be given and match it.
pub open spec fn password_refusal(hash: Option<String>, old_password: Option<String>) -> Option<ApiError> {
    match hash {
        None => None,
        Some(h) => match old_password {
            None => Some(ApiError::NoOldPassword),
            Some(p) => match password_check(h@, p@) {
                Some(true) => None,
                Some(false) => Some(ApiError::WrongOldPassword),
                None => Some(ApiError::InvalidPasswordHash),
            },
        },
    }
}

/// Verifies a password against an encoded hash: calls
/// `argon2::verify_encoded`, which decodes the hash with its parameters and
/// salt, hashes the password alike and compares; its error (a hash that
/// cannot be decoded) becomes `None`.
#[verifier::external_body]
pub(crate) fn verify_password(hash: &str, pass: &str) -> (res: Option<bool>)
    ensures
        res == password_check(hash@, pass@),
{
    argon2::verify_encoded(hash, pass.as_bytes()).ok()
}

/// Draws 32 random bytes for a salt: calls `rand::Rng::gen` on
/// `rand::thread_rng()`. Nothing is said of them: they are random.
#[verifier::external_body]
fn random_salt() -> (res: [u8; 32]) {
    rand::Rng::gen::<[u8; 32]>(&mut rand::thread_rng())
}

/// Hashes a password with a salt: calls `argon2::hash_encoded` with
/// `argon2::Config::default()`; its error becomes `None`. With the default
/// configuration (one lane, 19 MiB, two passes, no secret or associated
/// data) and a 32-byte salt, the crate's source refuses only a password of
/// more than `0xFFFF_FFFF` bytes, which a text of at most a quarter as many
/// characters cannot be.
#[verifier::external_body]
fn hash_password(pass: &str, salt: &[u8; 32]) -> (res: Option<String>)
    ensures
        match res {
            Some(h) => password_hashed(pass@, salt@) == Some(h@),
            None => password_hashed(pass@, salt@) is None,
        },
        4 * pass@.len() <= 0xFFFF_FFFF ==> res is Some,
{
    argon2::hash_encoded(pass.as_bytes(), salt, &argon2::Config::default()).ok()
}

/// Property of a re-stream of being selected by the given IDs: all are
/// when there are none.
pub open spec fn selected_by(ids: Seq<RestreamId>) -> spec_fn(Restream) -> bool {
    |r: Restream| ids.len() == 0 || ids.contains(r.id)
}

impl QueriesRoot {
    /// The parameters that the server operates with.
    pub fn info(public_host: String, state: &State) -> (res: Info)
        ensures
            res.public_host == public_host,
            opt_view(res.password_hash) == opt_view(state.password_hash),
    {
        let password_hash = match &state.password_hash {
            Some(h) => Some(h.clone()),
            None => None,
        };
        Info { public_host, password_hash }
    }

    /// Exports the re-streams with the given IDs (all of them if none is
    /// given) as a specification; `None` if no re-stream is selected.
    pub fn export(ids: &Vec<RestreamId>, state: &State) -> (res: Option<spec::Spec>)
        ensures
            ({
                let sel = state.restreams@.filter(selected_by(ids@));
                match res {
                    None => sel.len() == 0,
                    Some(spec::Spec::V1(s)) => {
                        &&& sel.len() > 0
                        &&& s.restreams@.len() == sel.len()
                        &&& forall|m: int|
                            0 <= m < sel.len() ==> restream_exported(
                                #[trigger] s.restreams@[m],
                                sel[m],
                            )
                    },
                }
            }),
    {
        let ghost rs = state.restreams@;
        let mut out: Vec<spec::v1::Restream> = Vec::new();
        let mut k: usize = 0;
        while k < state.restreams.len()
            invariant
                k <= rs.len(),
                rs == state.restreams@,
                out@.len() == rs.take(k as int).filter(selected_by(ids@)).len(),
                forall|m: int|
                    0 <= m < out@.len() ==> restream_exported(
                        #[trigger] out@[m],
                        rs.take(k as int).filter(selected_by(ids@))[m],
                    ),
            decreases rs.len() - k,
        {
            let ghost prev = rs.take(k as int);
            proof {
                let pre = rs.take(k + 1);
                assert(pre.drop_last() =~= prev);
                reveal(Seq::filter);
            }
            let mut chosen = ids.len() == 0;
            let mut q: usize = 0;
            while q < ids.len() && !chosen
                invariant
                    q <= ids@.len(),
                    chosen <==> (ids@.len() == 0 || exists|m: int|
                        0 <= m < q && ids@[m] == rs[k as int].id),
                    k < rs.len(),
                    rs == state.restreams@,
                decreases ids@.len() - q,
            {
                if ids[q] == state.restreams[k].id {
                    chosen = true;
                }
                q = q + 1;
            }
            proof {
                if !chosen {
                    assert forall|m: int| 0 <= m < ids@.len() implies ids@[m] != rs[k as int].id by {}
                    assert(!ids@.contains(rs[k as int].id));
                } else if ids@.len() > 0 {
                    let m = choose|m: int| 0 <= m < q && ids@[m] == rs[k as int].id;
                    assert(ids@.contains(rs[k as int].id));
                }
            }
            if chosen {
                out.push(state.restreams[k].export());
            }
            k = k + 1;
        }
        proof {
            assert(rs.take(k as int) =~= rs);
        }
        if out.len() == 0 {
            None
        } else {
            Some(spec::Spec::V1(spec::v1::Spec { restreams: out }))
        }
    }
}

} // verus!
