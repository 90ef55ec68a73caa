//! Per-asset decisions as a state machine, and a model of one processing
//! cycle over a listing of source keys.
//!
//! The driver performs each action that `step` asks for (probe the store,
//! fetch, render, run the encoder, upload) and hands back what happened as
//! the next event, until `step` answers `Finish`.
use crate::keys::{destination_key_of, extension_of, file_name_of, media_kind_of, MediaKind};
use vstd::prelude::*;

verus! {

/// What became of one asset in a cycle.
#[derive(Clone, Copy, Debug, PartialEq, Eq, Structural)]
pub enum Outcome {
    /// A watermarked copy was uploaded with public-read visibility.
    Uploaded,
    /// The destination already existed; nothing was fetched or redone.
    SkippedExisting,
    /// The extension names no supported image or video format.
    SkippedUnsupportedType,
    /// The video exceeds the size ceiling; the encoder was not run.
    SkippedOversize,
    /// The encoder did not finish within its time budget.
    FailedTimeout,
    /// The asset could not be fetched, decoded or transformed, or the
    /// encoder failed or produced no output.
    FailedTransform,
    /// The upload of the watermarked copy failed.
    FailedUpload,
}

/// What the driver is asked to do next.
#[derive(Clone, Copy, Debug, PartialEq, Eq, Structural)]
pub enum Action {
    /// Check whether the destination key already exists in the store.
    ProbeDestination,
    /// Fetch the source object's bytes.
    FetchSource,
    /// Decode, watermark and re-encode the image.
    RenderImage,
    /// Run the video encoder under its time budget.
    RunEncoder,
    /// Upload the result with public-read visibility.
    Upload,
    /// The asset is done.
    Finish(Outcome),
}

/// What happened when the driver performed the last action.
#[derive(Clone, Copy, Debug, PartialEq, Eq, Structural)]
pub enum Event {
    /// Processing of the asset begins.
    Start,
    Probed { exists: bool },
    Fetched { size: u64 },
    FetchFailed,
    Rendered { ok: bool },
    EncoderTimedOut,
    /// The encoder exited; `output_len` is the size of its output file, if
    /// one was written.
    EncoderExited { success: bool, output_len: Option<u64> },
    UploadFinished { ok: bool },
}

/// Where an asset's processing stands: which action's answer is awaited.
#[derive(Clone, Copy, Debug, PartialEq, Eq, Structural)]
pub enum Stage {
    Begin,
    Probing,
    Fetching,
    Rendering,
    Encoding,
    Uploading,
    Done(Outcome),
}

/// The state of one asset's processing.
#[derive(Clone, Copy, Debug, PartialEq, Eq, Structural)]
pub struct AssetState {
    pub kind: MediaKind,
    /// Size ceiling, in bytes, of videos sent to the encoder.
    pub max_video_bytes: u64,
    pub stage: Stage,
}

pub open spec fn done(kind: MediaKind, max_video_bytes: u64, o: Outcome) -> (AssetState, Action) {
    (AssetState { kind, max_video_bytes, stage: Stage::Done(o) }, Action::Finish(o))
}

pub open spec fn goto(kind: MediaKind, max_video_bytes: u64, stage: Stage, a: Action) -> (AssetState, Action) {
    (AssetState { kind, max_video_bytes, stage }, a)
}

/// The transition function. An event that does not answer the stage's
/// action ends the asset as `FailedTransform`; a finished asset stays finished.
pub open spec fn next_of(s: AssetState, e: Event) -> (AssetState, Action) {
    let k = s.kind;
    let m = s.max_video_bytes;
    match (s.stage, e) {
        (Stage::Done(o), _) => done(k, m, o),
        (Stage::Begin, Event::Start) => if k == MediaKind::Unsupported {
            done(k, m, Outcome::SkippedUnsupportedType)
        } else {
            goto(k, m, Stage::Probing, Action::ProbeDestination)
        },
        (Stage::Probing, Event::Probed { exists }) => if exists {
            done(k, m, Outcome::SkippedExisting)
        } else {
            goto(k, m, Stage::Fetching, Action::FetchSource)
        },
        (Stage::Fetching, Event::FetchFailed) => done(k, m, Outcome::FailedTransform),
        (Stage::Fetching, Event::Fetched { size }) => if k == MediaKind::Image {
            goto(k, m, Stage::Rendering, Action::RenderImage)
        } else if size > m {
            done(k, m, Outcome::SkippedOversize)
        } else {
            goto(k, m, Stage::Encoding, Action::RunEncoder)
        },
        (Stage::Rendering, Event::Rendered { ok }) => if ok {
            goto(k, m, Stage::Uploading, Action::Upload)
        } else {
            done(k, m, Outcome::FailedTransform)
        },
        (Stage::Encoding, Event::EncoderTimedOut) => done(k, m, Outcome::FailedTimeout),
        (Stage::Encoding, Event::EncoderExited { success, output_len }) => if success && (
        output_len matches Some(n) && n > 0) {
            goto(k, m, Stage::Uploading, Action::Upload)
        } else {
            done(k, m, Outcome::FailedTransform)
        },
        (Stage::Uploading, Event::UploadFinished { ok }) => if ok {
            done(k, m, Outcome::Uploaded)
        } else {
            done(k, m, Outcome::FailedUpload)
        },
        _ => done(k, m, Outcome::FailedTransform),
    }
}

/// The state of an asset of media kind `kind` before anything was done.
pub fn begin(kind: MediaKind, max_video_bytes: u64) -> (r: AssetState)
    ensures
        r == (AssetState { kind, max_video_bytes, stage: Stage::Begin }),
{
    AssetState { kind, max_video_bytes, stage: Stage::Begin }
}

/// One transition of an asset's processing (see `next_of`).
pub fn step(s: AssetState, e: Event) -> (r: (AssetState, Action))
    ensures
        r == next_of(s, e),
{
    let k = s.kind;
    let m = s.max_video_bytes;
    let fin = |o: Outcome| -> (r: (AssetState, Action))
        ensures
            r == done(k, m, o),
        { (AssetState { kind: k, max_video_bytes: m, stage: Stage::Done(o) }, Action::Finish(o)) };
    let go = |stage: Stage, a: Action| -> (r: (AssetState, Action))
        ensures
            r == goto(k, m, stage, a),
        { (AssetState { kind: k, max_video_bytes: m, stage }, a) };
    match (s.stage, e) {
        (Stage::Done(o), _) => fin(o),
        (Stage::Begin, Event::Start) => if k == MediaKind::Unsupported {
            fin(Outcome::SkippedUnsupportedType)
        } else {
            go(Stage::Probing, Action::ProbeDestination)
        },
        (Stage::Probing, Event::Probed { exists }) => if exists {
            fin(Outcome::SkippedExisting)
        } else {
            go(Stage::Fetching, Action::FetchSource)
        },
        (Stage::Fetching, Event::FetchFailed) => fin(Outcome::FailedTransform),
        (Stage::Fetching, Event::Fetched { size }) => if k == MediaKind::Image {
            go(Stage::Rendering, Action::RenderImage)
        } else if size > m {
            fin(Outcome::SkippedOversize)
        } else {
            go(Stage::Encoding, Action::RunEncoder)
        },
        (Stage::Rendering, Event::Rendered { ok }) => if ok {
            go(Stage::Uploading, Action::Upload)
        } else {
            fin(Outcome::FailedTransform)
        },
        (Stage::Encoding, Event::EncoderTimedOut) => fin(Outcome::FailedTimeout),
        (Stage::Encoding, Event::EncoderExited { success, output_len }) => {
            let produced = match output_len {
                Some(n) => n > 0,
                None => false,
            };
            if success && produced {
                go(Stage::Uploading, Action::Upload)
            } else {
                fin(Outcome::FailedTransform)
            }
        },
        (Stage::Uploading, Event::UploadFinished { ok }) => if ok {
            fin(Outcome::Uploaded)
        } else {
            fin(Outcome::FailedUpload)
        },
        _ => fin(Outcome::FailedTransform),
    }
}

// ---- a model of the driver and of one cycle ----

/// What the outside world answers for one asset: the event of its fetch
/// (`Fetched` or `FetchFailed`), whether rendering succeeded, the event of
/// its encoder run, and whether its upload succeeded.
#[derive(Clone, Copy, Debug, PartialEq, Eq, Structural)]
pub struct World {
    pub fetch: Event,
    pub rendered: bool,
    pub encoder: Event,
    pub uploaded: bool,
}

/// The event that the driver hands back after performing `a`, where
/// `exists` tells whether the destination is in the store.
pub open spec fn answer(a: Action, exists: bool, w: World) -> Event {
    match a {
        Action::ProbeDestination => Event::Probed { exists },
        Action::FetchSource => w.fetch,
        Action::RenderImage => Event::Rendered { ok: w.rendered },
        Action::RunEncoder => w.encoder,
        Action::Upload => Event::UploadFinished { ok: w.uploaded },
        Action::Finish(_) => Event::Start,
    }
}

/// The actions issued from state `s` with pending action `a`, up to and
/// including `Finish`, at most `fuel` of them.
pub open spec fn drive(s: AssetState, a: Action, exists: bool, w: World, fuel: nat) -> Seq<Action>
    decreases fuel,
{
    if a is Finish || fuel <= 1 {
        seq![a]
    } else {
        let (s2, a2) = next_of(s, answer(a, exists, w));
        seq![a] + drive(s2, a2, exists, w, (fuel - 1) as nat)
    }
}

/// The actions that the driver performs for one asset, in order.
pub open spec fn actions_of(kind: MediaKind, max_video_bytes: u64, exists: bool, w: World) -> Seq<Action> {
    let (s, a) = next_of(AssetState { kind, max_video_bytes, stage: Stage::Begin }, Event::Start);
    drive(s, a, exists, w, 5)
}

/// The outcome of one asset: the one its last action finishes with.
pub open spec fn outcome_of(kind: MediaKind, max_video_bytes: u64, exists: bool, w: World) -> Outcome {
    match actions_of(kind, max_video_bytes, exists, w).last() {
        Action::Finish(o) => o,
        _ => Outcome::FailedTransform,
    }
}

pub open spec fn kind_of_key(key: Seq<char>) -> MediaKind {
    media_kind_of(extension_of(file_name_of(key)))
}

/// One cycle over the listed source keys, in order: each asset's outcome,
/// given whether its destination is in the store at its turn, and the
/// store's destination keys afterwards (an upload adds one).
pub open spec fn run_cycle(
    store: Set<Seq<char>>,
    prefix: Seq<char>,
    keys: Seq<Seq<char>>,
    max_video_bytes: u64,
    worlds: Seq<World>,
) -> (Set<Seq<char>>, Seq<Outcome>)
    decreases keys.len(),
{
    if keys.len() == 0 || worlds.len() == 0 {
        (store, Seq::empty())
    } else {
        let d = destination_key_of(prefix, keys[0]);
        let o = outcome_of(kind_of_key(keys[0]), max_video_bytes, store.contains(d), worlds[0]);
        let next = if o == Outcome::Uploaded {
            store.insert(d)
        } else {
            store
        };
        let (after, rest) = run_cycle(next, prefix, keys.drop_first(), max_video_bytes, worlds.drop_first());
        (after, seq![o] + rest)
    }
}

proof fn lemma_outcome_unsupported(m: u64, exists: bool, w: World)
    ensures
        outcome_of(MediaKind::Unsupported, m, exists, w) == Outcome::SkippedUnsupportedType,
{
    reveal_with_fuel(drive, 2);
}

proof fn lemma_outcome_existing(kind: MediaKind, m: u64, w: World)
    requires
        kind != MediaKind::Unsupported,
    ensures
        outcome_of(kind, m, true, w) == Outcome::SkippedExisting,
{
    reveal_with_fuel(drive, 3);
    let s1 = AssetState { kind, max_video_bytes: m, stage: Stage::Probing };
    assert(drive(s1, Action::ProbeDestination, true, w, 5) =~= seq![
        Action::ProbeDestination,
        Action::Finish(Outcome::SkippedExisting),
    ]);
}

proof fn lemma_outcome_not_existing(kind: MediaKind, m: u64, w: World)
    ensures
        outcome_of(kind, m, false, w) != Outcome::SkippedExisting,
{
    reveal_with_fuel(drive, 6);
}

proof fn lemma_outcome_supported(kind: MediaKind, m: u64, exists: bool, w: World)
    requires
        kind != MediaKind::Unsupported,
    ensures
        outcome_of(kind, m, exists, w) != Outcome::SkippedUnsupportedType,
{
    reveal_with_fuel(drive, 6);
}

/// Each asset's outcome in a cycle is its outcome for some answer of the
/// store's probe.
proof fn lemma_cycle_outcome_at(store: Set<Seq<char>>, prefix: Seq<char>, keys: Seq<Seq<char>>, m: u64, worlds: Seq<World>, i: int)
    requires
        0 <= i < keys.len(),
        keys.len() == worlds.len(),
    ensures
        exists|b: bool| run_cycle(store, prefix, keys, m, worlds).1[i] == outcome_of(kind_of_key(keys[i]), m, b, worlds[i]),
    decreases keys.len(),
{
    let d = destination_key_of(prefix, keys[0]);
    let o = outcome_of(kind_of_key(keys[0]), m, store.contains(d), worlds[0]);
    let next = if o == Outcome::Uploaded {
        store.insert(d)
    } else {
        store
    };
    let rest = run_cycle(next, prefix, keys.drop_first(), m, worlds.drop_first());
    lemma_cycle_grows(next, prefix, keys.drop_first(), m, worlds.drop_first());
    assert(run_cycle(store, prefix, keys, m, worlds).1 == seq![o] + rest.1);
    if i == 0 {
        assert(run_cycle(store, prefix, keys, m, worlds).1[0] == outcome_of(kind_of_key(keys[0]), m, store.contains(d), worlds[0]));
    } else {
        assert(keys.drop_first()[i - 1] == keys[i]);
        assert(worlds.drop_first()[i - 1] == worlds[i]);
        lemma_cycle_outcome_at(next, prefix, keys.drop_first(), m, worlds.drop_first(), i - 1);
        assert((seq![o] + rest.1)[i] == rest.1[i - 1]);
    }
}

proof fn lemma_cycle_grows(store: Set<Seq<char>>, prefix: Seq<char>, keys: Seq<Seq<char>>, m: u64, worlds: Seq<World>)
    ensures
        store.subset_of(run_cycle(store, prefix, keys, m, worlds).0),
        run_cycle(store, prefix, keys, m, worlds).1.len() == if keys.len() < worlds.len() {
            keys.len()
        } else {
            worlds.len()
        },
    decreases keys.len(),
{
    if keys.len() > 0 && worlds.len() > 0 {
        let d = destination_key_of(prefix, keys[0]);
        let o = outcome_of(kind_of_key(keys[0]), m, store.contains(d), worlds[0]);
        let next = if o == Outcome::Uploaded {
            store.insert(d)
        } else {
            store
        };
        lemma_cycle_grows(next, prefix, keys.drop_first(), m, worlds.drop_first());
    }
}

/// After a cycle, the destination of every asset that was uploaded or found
/// existing is in the store.
proof fn lemma_cycle_destinations(store: Set<Seq<char>>, prefix: Seq<char>, keys: Seq<Seq<char>>, m: u64, worlds: Seq<World>, i: int)
    requires
        0 <= i < keys.len(),
        keys.len() == worlds.len(),
        run_cycle(store, prefix, keys, m, worlds).1[i] == Outcome::Uploaded
            || run_cycle(store, prefix, keys, m, worlds).1[i] == Outcome::SkippedExisting,
    ensures
        run_cycle(store, prefix, keys, m, worlds).0.contains(destination_key_of(prefix, keys[i])),
        kind_of_key(keys[i]) != MediaKind::Unsupported,
    decreases keys.len(),
{
    let d = destination_key_of(prefix, keys[0]);
    let o = outcome_of(kind_of_key(keys[0]), m, store.contains(d), worlds[0]);
    let next = if o == Outcome::Uploaded {
        store.insert(d)
    } else {
        store
    };
    lemma_cycle_grows(next, prefix, keys.drop_first(), m, worlds.drop_first());
    if i == 0 {
        if kind_of_key(keys[0]) == MediaKind::Unsupported {
            lemma_outcome_unsupported(m, store.contains(d), worlds[0]);
        }
        if o == Outcome::SkippedExisting && !store.contains(d) {
            lemma_outcome_not_existing(kind_of_key(keys[0]), m, worlds[0]);
        }
    } else {
        assert(keys.drop_first()[i - 1] == keys[i]);
        lemma_cycle_destinations(next, prefix, keys.drop_first(), m, worlds.drop_first(), i - 1);
    }
}

/// A supported asset whose destination is in the store when the cycle
/// starts is skipped as existing.
proof fn lemma_cycle_skips_present(store: Set<Seq<char>>, prefix: Seq<char>, keys: Seq<Seq<char>>, m: u64, worlds: Seq<World>, i: int)
    requires
        0 <= i < keys.len(),
        keys.len() == worlds.len(),
        store.contains(destination_key_of(prefix, keys[i])),
        kind_of_key(keys[i]) != MediaKind::Unsupported,
    ensures
        run_cycle(store, prefix, keys, m, worlds).1[i] == Outcome::SkippedExisting,
    decreases keys.len(),
{
    let d = destination_key_of(prefix, keys[0]);
    let o = outcome_of(kind_of_key(keys[0]), m, store.contains(d), worlds[0]);
    let next = if o == Outcome::Uploaded {
        store.insert(d)
    } else {
        store
    };
    let rest = run_cycle(next, prefix, keys.drop_first(), m, worlds.drop_first());
    lemma_cycle_grows(next, prefix, keys.drop_first(), m, worlds.drop_first());
    assert(run_cycle(store, prefix, keys, m, worlds).1 == seq![o] + rest.1);
    if i == 0 {
        lemma_outcome_existing(kind_of_key(keys[0]), m, worlds[0]);
    } else {
        assert(keys.drop_first()[i - 1] == keys[i]);
        lemma_cycle_skips_present(next, prefix, keys.drop_first(), m, worlds.drop_first(), i - 1);
        assert((seq![o] + rest.1)[i] == rest.1[i - 1]);
    }
}

/// A cycle in which nothing is uploaded leaves the store as it was.
proof fn lemma_cycle_without_uploads(store: Set<Seq<char>>, prefix: Seq<char>, keys: Seq<Seq<char>>, m: u64, worlds: Seq<World>)
    requires
        keys.len() == worlds.len(),
        forall|i: int|
            0 <= i < keys.len() ==> #[trigger] run_cycle(store, prefix, keys, m, worlds).1[i] != Outcome::Uploaded,
    ensures
        run_cycle(store, prefix, keys, m, worlds).0 == store,
    decreases keys.len(),
{
    if keys.len() > 0 {
        let d = destination_key_of(prefix, keys[0]);
        let o = outcome_of(kind_of_key(keys[0]), m, store.contains(d), worlds[0]);
        let rest = run_cycle(store, prefix, keys.drop_first(), m, worlds.drop_first());
        lemma_cycle_grows(store, prefix, keys.drop_first(), m, worlds.drop_first());
        assert(run_cycle(store, prefix, keys, m, worlds).1[0] != Outcome::Uploaded);
        assert(o != Outcome::Uploaded);
        assert(run_cycle(store, prefix, keys, m, worlds).1 == seq![o] + rest.1);
        assert forall|i: int| 0 <= i < keys.drop_first().len() implies #[trigger] rest.1[i] != Outcome::Uploaded by {
            assert(run_cycle(store, prefix, keys, m, worlds).1[i + 1] != Outcome::Uploaded);
            assert((seq![o] + rest.1)[i + 1] == rest.1[i]);
        }
        lemma_cycle_without_uploads(store, prefix, keys.drop_first(), m, worlds.drop_first());
    }
}

/// Idempotence: run a cycle over the same source keys a second time, on the
/// store that the first left behind. Every asset that the first run uploaded
/// or found existing is skipped as existing by the second, whatever the
/// outside world answers then; and where the first run uploaded, found
/// existing or skipped as unsupported every asset, the second run writes
/// nothing, so each destination object is produced exactly once.
pub proof fn lemma_second_run_skips(
    store: Set<Seq<char>>,
    prefix: Seq<char>,
    keys: Seq<Seq<char>>,
    max_video_bytes: u64,
    first: Seq<World>,
    second: Seq<World>,
)
    requires
        keys.len() == first.len(),
        keys.len() == second.len(),
    ensures
        ({
            let (after_first, o1) = run_cycle(store, prefix, keys, max_video_bytes, first);
            let (after_second, o2) = run_cycle(after_first, prefix, keys, max_video_bytes, second);
            &&& forall|i: int|
                0 <= i < keys.len() && (o1[i] == Outcome::Uploaded || o1[i] == Outcome::SkippedExisting)
                    ==> #[trigger] o2[i] == Outcome::SkippedExisting
            &&& (forall|i: int|
                0 <= i < keys.len() ==> (#[trigger] o1[i] == Outcome::Uploaded || o1[i] == Outcome::SkippedExisting
                    || o1[i] == Outcome::SkippedUnsupportedType)) ==> after_second == after_first
        }),
{
    let (after_first, o1) = run_cycle(store, prefix, keys, max_video_bytes, first);
    let (after_second, o2) = run_cycle(after_first, prefix, keys, max_video_bytes, second);
    assert forall|i: int|
        0 <= i < keys.len() && (o1[i] == Outcome::Uploaded || o1[i] == Outcome::SkippedExisting)
            implies #[trigger] o2[i] == Outcome::SkippedExisting by {
        lemma_cycle_destinations(store, prefix, keys, max_video_bytes, first, i);
        lemma_cycle_skips_present(after_first, prefix, keys, max_video_bytes, second, i);
    }
    if forall|i: int|
        0 <= i < keys.len() ==> (#[trigger] o1[i] == Outcome::Uploaded || o1[i] == Outcome::SkippedExisting
            || o1[i] == Outcome::SkippedUnsupportedType) {
        assert forall|i: int| 0 <= i < keys.len() implies #[trigger] o2[i] != Outcome::Uploaded by {
            assert(o1[i] == Outcome::Uploaded || o1[i] == Outcome::SkippedExisting || o1[i]
                == Outcome::SkippedUnsupportedType);
            if o1[i] == Outcome::SkippedUnsupportedType {
                lemma_cycle_outcome_at(store, prefix, keys, max_video_bytes, first, i);
                let b = choose|b: bool| o1[i] == outcome_of(kind_of_key(keys[i]), max_video_bytes, b, first[i]);
                if kind_of_key(keys[i]) != MediaKind::Unsupported {
                    lemma_outcome_supported(kind_of_key(keys[i]), max_video_bytes, b, first[i]);
                }
                lemma_cycle_outcome_at(after_first, prefix, keys, max_video_bytes, second, i);
                let b2 = choose|b2: bool| o2[i] == outcome_of(kind_of_key(keys[i]), max_video_bytes, b2, second[i]);
                lemma_outcome_unsupported(max_video_bytes, b2, second[i]);
            }
        }
        lemma_cycle_without_uploads(after_first, prefix, keys, max_video_bytes, second);
    }
}

/// Size and time bounds of videos: a video above the size ceiling is skipped
/// as oversize and the encoder is never asked to run; an encoder run that
/// exceeds its time budget fails the asset as timed out. Either way the
/// cycle goes on: every listed asset gets an outcome.
pub proof fn lemma_video_bounds(
    store: Set<Seq<char>>,
    prefix: Seq<char>,
    keys: Seq<Seq<char>>,
    max_video_bytes: u64,
    worlds: Seq<World>,
    w: World,
    size: u64,
)
    requires
        keys.len() == worlds.len(),
        w.fetch == (Event::Fetched { size }),
    ensures
        size > max_video_bytes ==> outcome_of(MediaKind::Video, max_video_bytes, false, w)
            == Outcome::SkippedOversize,
        size > max_video_bytes ==> !actions_of(MediaKind::Video, max_video_bytes, false, w).contains(
            Action::RunEncoder,
        ),
        size <= max_video_bytes && w.encoder == Event::EncoderTimedOut ==> outcome_of(
            MediaKind::Video,
            max_video_bytes,
            false,
            w,
        ) == Outcome::FailedTimeout,
        run_cycle(store, prefix, keys, max_video_bytes, worlds).1.len() == keys.len(),
{
    reveal_with_fuel(drive, 6);
    lemma_cycle_grows(store, prefix, keys, max_video_bytes, worlds);
    let acts = actions_of(MediaKind::Video, max_video_bytes, false, w);
    if size > max_video_bytes {
        assert(acts =~= seq![
            Action::ProbeDestination,
            Action::FetchSource,
            Action::Finish(Outcome::SkippedOversize),
        ]);
    }
}

} // verus!
