use watermarker::video::{encoder_args, overlay_filter_graph, ENCODER_TIMEOUT_SECS, MAX_VIDEO_BYTES, TARGET_VIDEO_WIDTH};

fn expected_graph(width: u32) -> String {
    let mut filters = Vec::new();
    for line in 0..5 {
        let y = format!("h/2 + (h*0.12)*({} - 2)", line);
        let style = "fontcolor=white@0.6:fontsize=h/40:borderw=2:bordercolor=white@0.3";
        filters.push(format!("drawtext=text='REFLEXU':{}:x=w*0.2:y={}", style, y));
        filters.push(format!("drawtext=text='-':{}:x=w*0.32:y={}", style, y));
        filters.push(format!("drawtext=text='www.reflexu.com':{}:x=w/2-tw/2:y={}", style, y));
        filters.push(format!("drawtext=text='-':{}:x=w*0.68:y={}", style, y));
        filters.push(format!("drawtext=text='REFLEXU':{}:x=w*0.8-tw:y={}", style, y));
    }
    format!("scale={}:-1,{}", width, filters.join(","))
}

#[test]
fn filter_graph_matches_layout() {
    let g = overlay_filter_graph("www.reflexu.com", "REFLEXU", TARGET_VIDEO_WIDTH);
    assert_eq!(g, expected_graph(1280));
}

#[test]
fn filter_graph_has_twenty_five_overlays() {
    let g = overlay_filter_graph("site", "side", 640);
    assert!(g.starts_with("scale=640:-1,drawtext=text='side'"));
    assert_eq!(g.matches("drawtext=").count(), 25);
    assert!(g.ends_with("x=w*0.8-tw:y=h/2 + (h*0.12)*(4 - 2)"));
}

#[test]
fn filter_graph_width_digits() {
    assert!(overlay_filter_graph("a", "b", 0).starts_with("scale=0:-1,"));
    assert!(overlay_filter_graph("a", "b", 4294967295).starts_with("scale=4294967295:-1,"));
}

#[test]
fn encoder_argument_list() {
    let args = encoder_args("/tmp/in.mp4", "scale=1280:-1", "/tmp/out.mp4");
    let expected: Vec<String> = [
        "-y", "-i", "/tmp/in.mp4", "-vf", "scale=1280:-1", "-c:v", "libx264", "-crf", "35", "-preset", "ultrafast",
        "-threads", "1", "-b:v", "1500k", "-movflags", "+faststart", "-an", "/tmp/out.mp4",
    ]
    .iter()
    .map(|s| s.to_string())
    .collect();
    assert_eq!(args, expected);
}

#[test]
fn video_bounds() {
    assert_eq!(MAX_VIDEO_BYTES, 314_572_800);
    assert_eq!(ENCODER_TIMEOUT_SECS, 300);
}
