//! Video watermarking: the overlay filter graph and the argument list of
//! the external encoder.
use crate::tenants::views;
use vstd::prelude::*;

verus! {

/// Largest video, in bytes, that is sent to the encoder.
pub const MAX_VIDEO_BYTES: u64 = 300 * 1024 * 1024;

/// Wall-clock budget, in seconds, of one encoder run.
pub const ENCODER_TIMEOUT_SECS: u64 = 300;

/// Width, in pixels, that videos are scaled down to.
pub const TARGET_VIDEO_WIDTH: u32 = 1280;

/// Number of text rows burnt into each frame.
pub const OVERLAY_ROWS: u32 = 5;

pub open spec fn digit_char(d: int) -> char {
    if d == 0 {
        '0'
    } else if d == 1 {
        '1'
    } else if d == 2 {
        '2'
    } else if d == 3 {
        '3'
    } else if d == 4 {
        '4'
    } else if d == 5 {
        '5'
    } else if d == 6 {
        '6'
    } else if d == 7 {
        '7'
    } else if d == 8 {
        '8'
    } else {
        '9'
    }
}

/// Decimal digits of `n`, most significant first.
pub open spec fn decimal(n: nat) -> Seq<char>
    decreases n,
{
    if n < 10 {
        seq![digit_char(n as int)]
    } else {
        decimal(n / 10).push(digit_char((n % 10) as int))
    }
}

fn digit_str(d: u32) -> (r: &'static str)
    requires
        d < 10,
    ensures
        r@ == seq![digit_char(d as int)],
{
    proof {
        reveal_strlit("0");
        reveal_strlit("1");
        reveal_strlit("2");
        reveal_strlit("3");
        reveal_strlit("4");
        reveal_strlit("5");
        reveal_strlit("6");
        reveal_strlit("7");
        reveal_strlit("8");
        reveal_strlit("9");
    }
    let r = if d == 0 {
        "0"
    } else if d == 1 {
        "1"
    } else if d == 2 {
        "2"
    } else if d == 3 {
        "3"
    } else if d == 4 {
        "4"
    } else if d == 5 {
        "5"
    } else if d == 6 {
        "6"
    } else if d == 7 {
        "7"
    } else if d == 8 {
        "8"
    } else {
        "9"
    };
    assert(r@ =~= seq![digit_char(d as int)]);
    r
}

/// Appends the decimal digits of `n` to `s`.
fn append_decimal(s: &mut String, n: u32)
    ensures
        final(s)@ == old(s)@ + decimal(n as nat),
    decreases n,
{
    if n < 10 {
        s.append(digit_str(n));
    } else {
        append_decimal(s, n / 10);
        s.append(digit_str(n % 10));
        proof {
            assert(decimal(n as nat) == decimal((n / 10) as nat).push(digit_char((n % 10) as int)));
        }
        assert(s@ =~= old(s)@ + decimal(n as nat));
    }
}

/// One text overlay: `text` at horizontal position `x` on row `row`, in
/// translucent white with a thin translucent outline, at a fortieth of the
/// frame height.
pub open spec fn drawtext_of(text: Seq<char>, x: Seq<char>, row: nat) -> Seq<char> {
    "drawtext=text='"@ + text
        + "':fontcolor=white@0.6:fontsize=h/40:borderw=2:bordercolor=white@0.3:x="@ + x
        + ":y=h/2 + (h*0.12)*("@ + decimal(row) + " - 2)"@
}

/// The five overlays of one row: side label, dash, site label (centred),
/// dash, side label.
pub open spec fn row_overlays_of(site: Seq<char>, side: Seq<char>, row: nat) -> Seq<char> {
    drawtext_of(side, "w*0.2"@, row) + ","@ + drawtext_of("-"@, "w*0.32"@, row) + ","@
        + drawtext_of(site, "w/2-tw/2"@, row) + ","@ + drawtext_of("-"@, "w*0.68"@, row) + ","@
        + drawtext_of(side, "w*0.8-tw"@, row)
}

/// The overlays of rows `row` up to `OVERLAY_ROWS`, each preceded by a comma.
pub open spec fn rows_from_of(site: Seq<char>, side: Seq<char>, row: nat) -> Seq<char>
    decreases OVERLAY_ROWS - row,
{
    if row >= OVERLAY_ROWS {
        Seq::empty()
    } else {
        ","@ + row_overlays_of(site, side, row) + rows_from_of(site, side, row + 1)
    }
}

/// The filter graph: scale to `width` keeping the aspect ratio, then the
/// overlays of every row.
pub open spec fn filter_graph_of(site: Seq<char>, side: Seq<char>, width: nat) -> Seq<char> {
    "scale="@ + decimal(width) + ":-1"@ + rows_from_of(site, side, 0)
}

fn append_drawtext(s: &mut String, text: &str, x: &str, row: u32)
    ensures
        final(s)@ == old(s)@ + drawtext_of(text@, x@, row as nat),
{
    s.append("drawtext=text='");
    s.append(text);
    s.append("':fontcolor=white@0.6:fontsize=h/40:borderw=2:bordercolor=white@0.3:x=");
    s.append(x);
    s.append(":y=h/2 + (h*0.12)*(");
    append_decimal(s, row);
    s.append(" - 2)");
    assert(s@ =~= old(s)@ + drawtext_of(text@, x@, row as nat));
}

fn append_row(s: &mut String, site: &str, side: &str, row: u32)
    ensures
        final(s)@ == old(s)@ + row_overlays_of(site@, side@, row as nat),
{
    append_drawtext(s, side, "w*0.2", row);
    s.append(",");
    append_drawtext(s, "-", "w*0.32", row);
    s.append(",");
    append_drawtext(s, site, "w/2-tw/2", row);
    s.append(",");
    append_drawtext(s, "-", "w*0.68", row);
    s.append(",");
    append_drawtext(s, side, "w*0.8-tw", row);
    assert(s@ =~= old(s)@ + row_overlays_of(site@, side@, row as nat));
}

/// The encoder's filter graph: scale frames to `width` (aspect ratio kept),
/// then burn in five rows of `side` - `site` - `side` labels.
pub fn overlay_filter_graph(site: &str, side: &str, width: u32) -> (r: String)
    ensures
        r@ == filter_graph_of(site@, side@, width as nat),
{
    let mut s = String::from_str("scale=");
    append_decimal(&mut s, width);
    s.append(":-1");
    let ghost head = s@;
    let mut row: u32 = 0;
    while row < OVERLAY_ROWS
        invariant
            row <= OVERLAY_ROWS,
            head == "scale="@ + decimal(width as nat) + ":-1"@,
            s@ + rows_from_of(site@, side@, row as nat) == head + rows_from_of(site@, side@, 0),
        decreases OVERLAY_ROWS - row,
    {
        let ghost before = s@;
        s.append(",");
        append_row(&mut s, site, side, row);
        proof {
            let rest = rows_from_of(site@, side@, (row + 1) as nat);
            assert(before + rows_from_of(site@, side@, row as nat) =~= s@ + rest);
        }
        row = row + 1;
    }
    assert(s@ =~= s@ + rows_from_of(site@, side@, row as nat));
    s
}

/// The encoder's arguments, in order.
pub open spec fn encoder_args_of(input: Seq<char>, filter: Seq<char>, output: Seq<char>) -> Seq<
    Seq<char>,
> {
    seq![
        "-y"@,
        "-i"@,
        input,
        "-vf"@,
        filter,
        "-c:v"@,
        "libx264"@,
        "-crf"@,
        "35"@,
        "-preset"@,
        "ultrafast"@,
        "-threads"@,
        "1"@,
        "-b:v"@,
        "1500k"@,
        "-movflags"@,
        "+faststart"@,
        "-an"@,
        output,
    ]
}

/// The encoder invocation: overwrite the output, read `input`, apply
/// `filter`, encode H.264 at a small-size quality with the fastest preset on
/// one thread, cap the bitrate, lay the output out for progressive download,
/// drop the audio, and write `output`.
pub fn encoder_args(input: &str, filter: &str, output: &str) -> (r: Vec<String>)
    ensures
        views(r@) == encoder_args_of(input@, filter@, output@),
{
    let mut r: Vec<String> = Vec::new();
    r.push(String::from_str("-y"));
    r.push(String::from_str("-i"));
    r.push(String::from_str(input));
    r.push(String::from_str("-vf"));
    r.push(String::from_str(filter));
    r.push(String::from_str("-c:v"));
    r.push(String::from_str("libx264"));
    r.push(String::from_str("-crf"));
    r.push(String::from_str("35"));
    r.push(String::from_str("-preset"));
    r.push(String::from_str("ultrafast"));
    r.push(String::from_str("-threads"));
    r.push(String::from_str("1"));
    r.push(String::from_str("-b:v"));
    r.push(String::from_str("1500k"));
    r.push(String::from_str("-movflags"));
    r.push(String::from_str("+faststart"));
    r.push(String::from_str("-an"));
    r.push(String::from_str(output));
    assert(views(r@) =~= encoder_args_of(input@, filter@, output@));
    r
}

} // verus!
