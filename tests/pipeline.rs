use watermarker::keys::MediaKind;
use watermarker::pipeline::{begin, step, Action, AssetState, Event, Outcome};
use watermarker::video::MAX_VIDEO_BYTES;

fn run(kind: MediaKind, events: &[Event]) -> Vec<Action> {
    let mut s: AssetState = begin(kind, MAX_VIDEO_BYTES);
    let mut actions = Vec::new();
    let (s1, a1) = step(s, Event::Start);
    s = s1;
    actions.push(a1);
    for e in events {
        let (s2, a2) = step(s, *e);
        s = s2;
        actions.push(a2);
    }
    actions
}

#[test]
fn oversize_video_skips_encoder() {
    let mb = 1024 * 1024;
    let acts = run(MediaKind::Video, &[Event::Probed { exists: false }, Event::Fetched { size: 350 * mb }]);
    assert_eq!(acts, vec![Action::ProbeDestination, Action::FetchSource, Action::Finish(Outcome::SkippedOversize)]);
    assert!(!acts.contains(&Action::RunEncoder));
}

#[test]
fn video_at_ceiling_is_encoded() {
    let acts = run(MediaKind::Video, &[Event::Probed { exists: false }, Event::Fetched { size: MAX_VIDEO_BYTES }]);
    assert_eq!(acts.last(), Some(&Action::RunEncoder));
}

#[test]
fn encoder_timeout_fails_asset() {
    let acts = run(
        MediaKind::Video,
        &[Event::Probed { exists: false }, Event::Fetched { size: 10 }, Event::EncoderTimedOut],
    );
    assert_eq!(acts.last(), Some(&Action::Finish(Outcome::FailedTimeout)));
}

#[test]
fn encoder_failures_fail_transform() {
    for e in [
        Event::EncoderExited { success: false, output_len: Some(100) },
        Event::EncoderExited { success: true, output_len: None },
        Event::EncoderExited { success: true, output_len: Some(0) },
    ] {
        let acts = run(MediaKind::Video, &[Event::Probed { exists: false }, Event::Fetched { size: 10 }, e]);
        assert_eq!(acts.last(), Some(&Action::Finish(Outcome::FailedTransform)));
    }
}

#[test]
fn video_uploaded() {
    let acts = run(
        MediaKind::Video,
        &[
            Event::Probed { exists: false },
            Event::Fetched { size: 10 },
            Event::EncoderExited { success: true, output_len: Some(5) },
            Event::UploadFinished { ok: true },
        ],
    );
    assert_eq!(
        acts,
        vec![
            Action::ProbeDestination,
            Action::FetchSource,
            Action::RunEncoder,
            Action::Upload,
            Action::Finish(Outcome::Uploaded)
        ]
    );
}

#[test]
fn image_uploaded_then_skipped() {
    let first = run(
        MediaKind::Image,
        &[Event::Probed { exists: false }, Event::Fetched { size: 1000 }, Event::Rendered { ok: true }, Event::UploadFinished { ok: true }],
    );
    assert_eq!(
        first,
        vec![Action::ProbeDestination, Action::FetchSource, Action::RenderImage, Action::Upload, Action::Finish(Outcome::Uploaded)]
    );
    let second = run(MediaKind::Image, &[Event::Probed { exists: true }]);
    assert_eq!(second, vec![Action::ProbeDestination, Action::Finish(Outcome::SkippedExisting)]);
}

#[test]
fn unsupported_is_skipped_without_probe() {
    assert_eq!(run(MediaKind::Unsupported, &[]), vec![Action::Finish(Outcome::SkippedUnsupportedType)]);
}

#[test]
fn failures_of_fetch_render_upload() {
    let a = run(MediaKind::Image, &[Event::Probed { exists: false }, Event::FetchFailed]);
    assert_eq!(a.last(), Some(&Action::Finish(Outcome::FailedTransform)));
    let b = run(MediaKind::Image, &[Event::Probed { exists: false }, Event::Fetched { size: 1 }, Event::Rendered { ok: false }]);
    assert_eq!(b.last(), Some(&Action::Finish(Outcome::FailedTransform)));
    let c = run(
        MediaKind::Image,
        &[Event::Probed { exists: false }, Event::Fetched { size: 1 }, Event::Rendered { ok: true }, Event::UploadFinished { ok: false }],
    );
    assert_eq!(c.last(), Some(&Action::Finish(Outcome::FailedUpload)));
}

#[test]
fn finished_asset_stays_finished() {
    let acts = run(MediaKind::Unsupported, &[Event::Probed { exists: false }]);
    assert_eq!(acts.last(), Some(&Action::Finish(Outcome::SkippedUnsupportedType)));
}

#[test]
fn unexpected_event_fails_asset() {
    let acts = run(MediaKind::Image, &[Event::Rendered { ok: true }]);
    assert_eq!(acts.last(), Some(&Action::Finish(Outcome::FailedTransform)));
}
