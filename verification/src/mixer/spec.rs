//! Specification of how mixing is performed: applications, each with mixers
//! that mix sources and feed the result to destinations, and its
//! validation.

use vstd::prelude::*;

use crate::text::str_eq;
use crate::weburl::WebUrl;

verus! {

/// Options of the `azmq` filter of a source.
#[derive(Clone, Copy, Debug, PartialEq, Eq, Structural)]
pub struct AzmqFilter {
    /// Port to listen for ZeroMQ commands on.
    pub port: u16,
}

impl AzmqFilter {
    /// The default options: port 5555.
    pub fn default() -> (res: AzmqFilter)
        ensures
            res.port == 5555,
    {
        AzmqFilter { port: 5555 }
    }
}

/// Source of audio and video channels to mix, with its mixing options.
#[derive(Debug)]
pub struct Source {
    /// URL to capture the channels from; `[app]` and `[stream]` stand for
    /// the live stream being mixed.
    pub url: WebUrl,
    /// Delay of the audio channels, in nanoseconds.
    pub delay_nanos: u128,
    /// Volume ratio of the audio channels, as the decimal number is written.
    pub volume: String,
    /// Options of the `azmq` filter.
    pub zmq: AzmqFilter,
}

/// Destination to push the mixed result to.
#[derive(Debug)]
pub struct Destination {
    /// URL to push to; `[app]` and `[stream]` stand for the live stream
    /// being mixed.
    pub url: WebUrl,
}

/// Mixer of sources feeding the result to destinations, each named.
#[derive(Debug)]
pub struct Mixer {
    /// Sources to mix.
    pub src: Vec<(String, Source)>,
    /// Destinations to feed.
    pub dest: Vec<(String, Destination)>,
}

/// Applications, each with its named mixers.
#[derive(Debug)]
pub struct Spec {
    /// Applications with their mixers.
    pub spec: Vec<(String, Vec<(String, Mixer)>)>,
}

/// What is wrong with a mixer.
#[derive(Clone, Debug, PartialEq, Eq)]
pub enum MixerError {
    /// It has no source.
    NoSources,
    /// The named source is neither an RTMP nor a TeamSpeak one.
    UnsupportedSource(String),
    /// The delay of the named source is finer than a millisecond.
    ImpreciseDelay(String),
    /// It has no destination.
    NoDestinations,
    /// The named destination is not an RTMP one.
    UnsupportedDestination(String),
}

/// Abstract view of a [`MixerError`].
pub enum MixerErrorView {
    /// It has no source.
    NoSources,
    /// The named source is neither an RTMP nor a TeamSpeak one.
    UnsupportedSource(Seq<char>),
    /// The delay of the named source is finer than a millisecond.
    ImpreciseDelay(Seq<char>),
    /// It has no destination.
    NoDestinations,
    /// The named destination is not an RTMP one.
    UnsupportedDestination(Seq<char>),
}

/// View of an error.
pub open spec fn error_view(e: MixerError) -> MixerErrorView {
    match e {
        MixerError::NoSources => MixerErrorView::NoSources,
        MixerError::UnsupportedSource(n) => MixerErrorView::UnsupportedSource(n@),
        MixerError::ImpreciseDelay(n) => MixerErrorView::ImpreciseDelay(n@),
        MixerError::NoDestinations => MixerErrorView::NoDestinations,
        MixerError::UnsupportedDestination(n) => MixerErrorView::UnsupportedDestination(n@),
    }
}

/// Views of errors.
pub open spec fn errors_view(es: Seq<MixerError>) -> Seq<MixerErrorView> {
    es.map_values(|e: MixerError| error_view(e))
}

/// Whether a source URL is a supported one: RTMP or TeamSpeak.
pub open spec fn supported_source(s: Source) -> bool {
    s.url@.scheme == "rtmp"@ || s.url@.scheme == "ts"@
}

/// Whether a delay is whole milliseconds.
pub open spec fn whole_millis(nanos: u128) -> bool {
    nanos % 1_000_000 == 0
}

/// Errors of the named source.
pub open spec fn source_errors(name: Seq<char>, s: Source) -> Seq<MixerErrorView> {
    (if supported_source(s) {
        Seq::empty()
    } else {
        seq![MixerErrorView::UnsupportedSource(name)]
    }) + (if whole_millis(s.delay_nanos) {
        Seq::empty()
    } else {
        seq![MixerErrorView::ImpreciseDelay(name)]
    })
}

/// Errors of the first `n` sources.
pub open spec fn sources_errors(src: Seq<(String, Source)>, n: nat) -> Seq<MixerErrorView>
    decreases n,
{
    if n == 0 {
        Seq::empty()
    } else {
        sources_errors(src, (n - 1) as nat) + source_errors(src[n - 1].0@, src[n - 1].1)
    }
}

/// Errors of the first `n` destinations.
pub open spec fn dests_errors(dest: Seq<(String, Destination)>, n: nat) -> Seq<MixerErrorView>
    decreases n,
{
    if n == 0 {
        Seq::empty()
    } else {
        dests_errors(dest, (n - 1) as nat) + if dest[n - 1].1.url@.scheme == "rtmp"@ {
            Seq::empty()
        } else {
            seq![MixerErrorView::UnsupportedDestination(dest[n - 1].0@)]
        }
    }
}

/// All errors of a mixer, in order: a missing source, those of each source,
/// a missing destination, those of each destination.
pub open spec fn mixer_errors(m: Mixer) -> Seq<MixerErrorView> {
    (if m.src@.len() == 0 {
        seq![MixerErrorView::NoSources]
    } else {
        Seq::empty()
    }) + sources_errors(m.src@, m.src@.len()) + (if m.dest@.len() == 0 {
        seq![MixerErrorView::NoDestinations]
    } else {
        Seq::empty()
    }) + dests_errors(m.dest@, m.dest@.len())
}

/// Whether a mixer is valid: it has sources, all RTMP or TeamSpeak ones with
/// delays of whole milliseconds, and destinations, all RTMP ones.
pub open spec fn mixer_valid(m: Mixer) -> bool {
    &&& m.src@.len() > 0
    &&& m.dest@.len() > 0
    &&& forall|i: int|
        0 <= i < m.src@.len() ==> supported_source(#[trigger] m.src@[i].1) && whole_millis(
            m.src@[i].1.delay_nanos,
        )
    &&& forall|i: int| 0 <= i < m.dest@.len() ==> (#[trigger] m.dest@[i]).1.url@.scheme == "rtmp"@
}

/// A copy of the text.
fn copy_text(s: &String) -> (res: String)
    ensures
        res@ == s@,
{
    let mut r = String::new();
    crate::text::push_str(&mut r, s.as_str());
    r
}

/// Appends an error.
fn push_error(es: &mut Vec<MixerError>, e: MixerError)
    ensures
        errors_view(final(es)@) == errors_view(old(es)@).push(error_view(e)),
{
    es.push(e);
    proof {
        assert(errors_view(final(es)@) =~= errors_view(old(es)@).push(error_view(e)));
    }
}

impl Mixer {
    /// Validates this mixer, giving all that is wrong with it, in order; it
    /// is valid when nothing is.
    pub fn validate(&self) -> (res: Vec<MixerError>)
        ensures
            errors_view(res@) == mixer_errors(*self),
            res@.len() == 0 <==> mixer_valid(*self),
    {
        let mut es: Vec<MixerError> = Vec::new();
        if self.src.len() == 0 {
            push_error(&mut es, MixerError::NoSources);
        }
        let ghost head = errors_view(es@);
        let mut i: usize = 0;
        while i < self.src.len()
            invariant
                i <= self.src@.len(),
                errors_view(es@) == head + sources_errors(self.src@, i as nat),
            decreases self.src@.len() - i,
        {
            let (name, s) = &self.src[i];
            let scheme = s.url.scheme();
            if !(str_eq(scheme, "rtmp") || str_eq(scheme, "ts")) {
                push_error(&mut es, MixerError::UnsupportedSource(copy_text(name)));
            }
            if s.delay_nanos % 1_000_000 != 0 {
                push_error(&mut es, MixerError::ImpreciseDelay(copy_text(name)));
            }
            proof {
                assert(errors_view(es@) =~= head + sources_errors(self.src@, (i + 1) as nat));
            }
            i = i + 1;
        }
        if self.dest.len() == 0 {
            push_error(&mut es, MixerError::NoDestinations);
        }
        let ghost mid = errors_view(es@);
        let mut i: usize = 0;
        while i < self.dest.len()
            invariant
                i <= self.dest@.len(),
                errors_view(es@) == mid + dests_errors(self.dest@, i as nat),
            decreases self.dest@.len() - i,
        {
            let (name, d) = &self.dest[i];
            if !str_eq(d.url.scheme(), "rtmp") {
                push_error(&mut es, MixerError::UnsupportedDestination(copy_text(name)));
            }
            proof {
                assert(errors_view(es@) =~= mid + dests_errors(self.dest@, (i + 1) as nat));
            }
            i = i + 1;
        }
        proof {
            assert(errors_view(es@) =~= mixer_errors(*self));
            lemma_no_errors_valid(*self);
        }
        es
    }
}

/// The errors of the first `n` sources are none exactly when those sources
/// are supported ones with delays of whole milliseconds.
proof fn lemma_sources_errors_empty(src: Seq<(String, Source)>, n: nat)
    requires
        n <= src.len(),
    ensures
        sources_errors(src, n).len() == 0 <==> forall|i: int|
            0 <= i < n ==> supported_source(#[trigger] src[i].1) && whole_millis(src[i].1.delay_nanos),
    decreases n,
{
    if n > 0 {
        lemma_sources_errors_empty(src, (n - 1) as nat);
        assert(sources_errors(src, n).len() == sources_errors(src, (n - 1) as nat).len()
            + source_errors(src[n - 1].0@, src[n - 1].1).len());
    }
}

/// The errors of the first `n` destinations are none exactly when those
/// destinations are RTMP ones.
proof fn lemma_dests_errors_empty(dest: Seq<(String, Destination)>, n: nat)
    requires
        n <= dest.len(),
    ensures
        dests_errors(dest, n).len() == 0 <==> forall|i: int|
            0 <= i < n ==> (#[trigger] dest[i]).1.url@.scheme == "rtmp"@,
    decreases n,
{
    if n > 0 {
        lemma_dests_errors_empty(dest, (n - 1) as nat);
    }
}

/// A mixer without errors is a valid one, and a valid one has no errors.
proof fn lemma_no_errors_valid(m: Mixer)
    ensures
        mixer_errors(m).len() == 0 <==> mixer_valid(m),
{
    lemma_sources_errors_empty(m.src@, m.src@.len());
    lemma_dests_errors_empty(m.dest@, m.dest@.len());
}

/// Error of a mixer of an application.
#[derive(Clone, Debug, PartialEq, Eq)]
pub struct SpecError {
    /// Name of the application.
    pub app: String,
    /// Name of the mixer.
    pub mixer: String,
    /// What is wrong with the mixer.
    pub error: MixerError,
}

/// View of an error of a specification: the application, the mixer and the
/// error.
pub open spec fn spec_error_view(e: SpecError) -> (Seq<char>, Seq<char>, MixerErrorView) {
    (e.app@, e.mixer@, error_view(e.error))
}

/// Views of errors of a specification.
pub open spec fn spec_errors_view(es: Seq<SpecError>) -> Seq<(Seq<char>, Seq<char>, MixerErrorView)> {
    es.map_values(|e: SpecError| spec_error_view(e))
}

/// The errors, named after an application and a mixer.
pub open spec fn tagged(app: Seq<char>, mixer: Seq<char>, es: Seq<MixerErrorView>) -> Seq<
    (Seq<char>, Seq<char>, MixerErrorView),
> {
    es.map_values(|e: MixerErrorView| (app, mixer, e))
}

/// The errors of a mixer, named after its application and itself.
pub open spec fn named_errors(app: Seq<char>, mixer: Seq<char>, m: Mixer) -> Seq<
    (Seq<char>, Seq<char>, MixerErrorView),
> {
    tagged(app, mixer, mixer_errors(m))
}

/// Errors of the first `n` mixers of an application.
pub open spec fn app_errors(app: Seq<char>, ms: Seq<(String, Mixer)>, n: nat) -> Seq<
    (Seq<char>, Seq<char>, MixerErrorView),
>
    decreases n,
{
    if n == 0 {
        Seq::empty()
    } else {
        app_errors(app, ms, (n - 1) as nat) + named_errors(app, ms[n - 1].0@, ms[n - 1].1)
    }
}

/// Errors of the first `n` applications.
pub open spec fn spec_errors(apps: Seq<(String, Vec<(String, Mixer)>)>, n: nat) -> Seq<
    (Seq<char>, Seq<char>, MixerErrorView),
>
    decreases n,
{
    if n == 0 {
        Seq::empty()
    } else {
        spec_errors(apps, (n - 1) as nat) + app_errors(
            apps[n - 1].0@,
            apps[n - 1].1@,
            apps[n - 1].1@.len(),
        )
    }
}

/// Names the errors of a mixer after its application and itself, appending
/// them to `out`.
fn push_named(out: &mut Vec<SpecError>, app: &String, mixer: &String, es: Vec<MixerError>)
    ensures
        spec_errors_view(final(out)@) == spec_errors_view(old(out)@) + tagged(app@, mixer@, errors_view(es@)),
{
    let ghost head = spec_errors_view(out@);
    let mut i: usize = 0;
    while i < es.len()
        invariant
            i <= es@.len(),
            spec_errors_view(out@) == head + tagged(app@, mixer@, errors_view(es@.take(i as int))),
        decreases es@.len() - i,
    {
        let e = SpecError { app: copy_text(app), mixer: copy_text(mixer), error: copy_error(&es[i]) };
        let ghost prev = out@;
        out.push(e);
        proof {
            assert(spec_errors_view(out@) =~= spec_errors_view(prev).push(spec_error_view(e)));
            assert(spec_error_view(e) == (app@, mixer@, error_view(es@[i as int])));
            assert(errors_view(es@.take(i + 1)) =~= errors_view(es@.take(i as int)).push(error_view(es@[i as int])));
            let t0 = tagged(app@, mixer@, errors_view(es@.take(i as int)));
            let t1 = tagged(app@, mixer@, errors_view(es@.take(i + 1)));
            assert(t1 =~= t0.push((app@, mixer@, error_view(es@[i as int]))));
            assert(spec_errors_view(out@) =~= head + t1);
        }
        i = i + 1;
    }
    assert(es@.take(es@.len() as int) =~= es@);
}

/// A copy of an error.
fn copy_error(e: &MixerError) -> (res: MixerError)
    ensures
        error_view(res) == error_view(*e),
{
    match e {
        MixerError::NoSources => MixerError::NoSources,
        MixerError::UnsupportedSource(n) => MixerError::UnsupportedSource(copy_text(n)),
        MixerError::ImpreciseDelay(n) => MixerError::ImpreciseDelay(copy_text(n)),
        MixerError::NoDestinations => MixerError::NoDestinations,
        MixerError::UnsupportedDestination(n) => MixerError::UnsupportedDestination(copy_text(n)),
    }
}

impl Spec {
    /// Validates every mixer of every application, giving all their errors
    /// in order, each named after its application and mixer; the
    /// specification is valid when there is none.
    pub fn validate(&self) -> (res: Vec<SpecError>)
        ensures
            spec_errors_view(res@) == spec_errors(self.spec@, self.spec@.len()),
    {
        let mut out: Vec<SpecError> = Vec::new();
        let mut i: usize = 0;
        while i < self.spec.len()
            invariant
                i <= self.spec@.len(),
                spec_errors_view(out@) == spec_errors(self.spec@, i as nat),
            decreases self.spec@.len() - i,
        {
            let (app, mixers) = &self.spec[i];
            let ghost before = spec_errors_view(out@);
            let mut k: usize = 0;
            while k < mixers.len()
                invariant
                    k <= mixers@.len(),
                    *mixers == self.spec@[i as int].1,
                    *app == self.spec@[i as int].0,
                    spec_errors_view(out@) == before + app_errors(app@, mixers@, k as nat),
                decreases mixers@.len() - k,
            {
                let (name, m) = &mixers[k];
                let es = m.validate();
                push_named(&mut out, app, name, es);
                proof {
                    assert(spec_errors_view(out@) =~= before + app_errors(
                        app@,
                        mixers@,
                        (k + 1) as nat,
                    ));
                }
                k = k + 1;
            }
            proof {
                assert(spec_errors_view(out@) =~= spec_errors(self.spec@, (i + 1) as nat));
            }
            i = i + 1;
        }
        out
    }

    /// The mixers of the given application; `None` when the specification
    /// has no such application.
    pub fn mixers_of(&self, app: &str) -> (res: Option<&Vec<(String, Mixer)>>)
        ensures
            match res {
                Some(ms) => exists|i: int|
                    0 <= i < self.spec@.len() && self.spec@[i].0@ == app@ && (#[trigger] self.spec@[i]).1
                        == *ms && forall|j: int| 0 <= j < i ==> (#[trigger] self.spec@[j]).0@ != app@,
                None => forall|i: int| 0 <= i < self.spec@.len() ==> (#[trigger] self.spec@[i]).0@ != app@,
            },
    {
        let mut i: usize = 0;
        while i < self.spec.len()
            invariant
                i <= self.spec@.len(),
                forall|j: int| 0 <= j < i ==> (#[trigger] self.spec@[j]).0@ != app@,
            decreases self.spec@.len() - i,
        {
            if str_eq(self.spec[i].0.as_str(), app) {
                return Some(&self.spec[i].1);
            }
            i = i + 1;
        }
        None
    }
}

} // verus!
