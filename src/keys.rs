//! Storage keys: file names, extensions, destination keys and media kinds.
use vstd::prelude::*;

verus! {

/// What kind of media a source object holds, judged by its extension.
#[derive(Clone, Copy, Debug, PartialEq, Eq, Structural)]
pub enum MediaKind {
    Image,
    Video,
    Unsupported,
}

/// ASCII lower-case of one character; other characters are unchanged.
pub open spec fn lower_char(c: char) -> char {
    if 'A' <= c && c <= 'Z' {
        ((c as u8) + 32) as char
    } else {
        c
    }
}

/// Whether `s` equals the lower-case word `w` once ASCII letters are folded.
pub open spec fn eq_folded(s: Seq<char>, w: Seq<char>) -> bool {
    &&& s.len() == w.len()
    &&& forall|i: int| 0 <= i < s.len() ==> lower_char(#[trigger] s[i]) == w[i]
}

pub open spec fn media_kind_of(ext: Seq<char>) -> MediaKind {
    if eq_folded(ext, seq!['j', 'p', 'g']) || eq_folded(ext, seq!['j', 'p', 'e', 'g'])
        || eq_folded(ext, seq!['p', 'n', 'g']) {
        MediaKind::Image
    } else if eq_folded(ext, seq!['m', 'p', '4']) || eq_folded(ext, seq!['m', 'o', 'v'])
        || eq_folded(ext, seq!['w', 'e', 'b', 'm']) {
        MediaKind::Video
    } else {
        MediaKind::Unsupported
    }
}

fn fold_char(c: char) -> (r: char)
    ensures
        r == lower_char(c),
{
    if 'A' <= c && c <= 'Z' {
        ((c as u8) + 32) as char
    } else {
        c
    }
}

fn matches_folded(s: &str, w: &str) -> (r: bool)
    ensures
        r == eq_folded(s@, w@),
{
    let n = s.unicode_len();
    if n != w.unicode_len() {
        return false;
    }
    let mut i: usize = 0;
    while i < n
        invariant
            n == s@.len(),
            n == w@.len(),
            i <= n,
            forall|j: int| 0 <= j < i ==> lower_char(#[trigger] s@[j]) == w@[j],
        decreases n - i,
    {
        if fold_char(s.get_char(i)) != w.get_char(i) {
            return false;
        }
        i = i + 1;
    }
    true
}

/// Media kind of an extension; letters are compared without regard to case.
pub fn media_kind(ext: &str) -> (r: MediaKind)
    ensures
        r == media_kind_of(ext@),
{
    proof {
        reveal_strlit("jpg");
        reveal_strlit("jpeg");
        reveal_strlit("png");
        reveal_strlit("mp4");
        reveal_strlit("mov");
        reveal_strlit("webm");
    }
    if matches_folded(ext, "jpg") || matches_folded(ext, "jpeg") || matches_folded(ext, "png") {
        MediaKind::Image
    } else if matches_folded(ext, "mp4") || matches_folded(ext, "mov") || matches_folded(ext, "webm") {
        MediaKind::Video
    } else {
        MediaKind::Unsupported
    }
}

/// Index of the last `c` among the first `n` characters of `s`, or -1.
pub open spec fn last_index_before(s: Seq<char>, c: char, n: int) -> int
    decreases n,
{
    if n <= 0 {
        -1
    } else if s[n - 1] == c {
        n - 1
    } else {
        last_index_before(s, c, n - 1)
    }
}

pub open spec fn last_index_of(s: Seq<char>, c: char) -> int {
    last_index_before(s, c, s.len() as int)
}

/// The last path segment of a storage key.
pub open spec fn file_name_of(key: Seq<char>) -> Seq<char> {
    key.subrange(last_index_of(key, '/') + 1, key.len() as int)
}

/// The extension of a file name: what follows its last dot, unless that dot
/// opens the name; empty when there is none.
pub open spec fn extension_of(name: Seq<char>) -> Seq<char> {
    let d = last_index_of(name, '.');
    if d > 0 {
        name.subrange(d + 1, name.len() as int)
    } else {
        Seq::empty()
    }
}

/// The base name: the file name without its final `.{extension}`; the
/// whole name where it has no extension.
pub open spec fn base_name_of(name: Seq<char>) -> Seq<char> {
    let d = last_index_of(name, '.');
    if d > 0 {
        name.subrange(0, d)
    } else {
        name
    }
}

pub open spec fn watermark_infix() -> Seq<char> {
    seq!['-', 'w', 'a', 't', 'e', 'r', 'm', 'a', 'r', 'k', '.']
}

/// `{prefix}{base}-watermark.{ext}` for a source key.
pub open spec fn destination_key_of(prefix: Seq<char>, key: Seq<char>) -> Seq<char> {
    let name = file_name_of(key);
    prefix + base_name_of(name) + watermark_infix() + extension_of(name)
}

/// A key that ends in `/` names a directory marker, not an asset.
pub open spec fn is_directory_marker_of(key: Seq<char>) -> bool {
    key.len() > 0 && key.last() == '/'
}

fn last_index(s: &str, c: char) -> (r: Option<usize>)
    ensures
        last_index_of(s@, c) < 0 ==> r is None,
        last_index_of(s@, c) >= 0 ==> r == Some(last_index_of(s@, c) as usize),
        -1 <= last_index_of(s@, c) < s@.len(),
{
    let n = s.unicode_len();
    let mut i: usize = n;
    proof {
        lemma_last_index_bounds(s@, c, n as int);
    }
    while i > 0
        invariant
            n == s@.len(),
            i <= n,
            last_index_before(s@, c, n as int) == last_index_before(s@, c, i as int),
            -1 <= last_index_before(s@, c, i as int),
            i > 0 ==> last_index_before(s@, c, i as int) < i,
        decreases i,
    {
        if s.get_char(i - 1) == c {
            return Some(i - 1);
        }
        i = i - 1;
        proof {
            lemma_last_index_bounds(s@, c, i as int);
        }
    }
    None
}

proof fn lemma_last_index_bounds(s: Seq<char>, c: char, n: int)
    ensures
        -1 <= last_index_before(s, c, n),
        n > 0 ==> last_index_before(s, c, n) < n,
    decreases n,
{
    if n > 0 {
        lemma_last_index_bounds(s, c, n - 1);
    }
}

/// The last path segment of `key`.
pub fn file_name(key: &str) -> (r: &str)
    ensures
        r@ == file_name_of(key@),
{
    let n = key.unicode_len();
    proof {
        lemma_last_index_bounds(key@, '/', key@.len() as int);
    }
    match last_index(key, '/') {
        Some(i) => key.substring_char(i + 1, n),
        None => key.substring_char(0, n),
    }
}

/// The extension of a file name (see `extension_of`).
pub fn extension(name: &str) -> (r: &str)
    ensures
        r@ == extension_of(name@),
{
    let n = name.unicode_len();
    proof {
        lemma_last_index_bounds(name@, '.', name@.len() as int);
    }
    match last_index(name, '.') {
        Some(d) => {
            if d > 0 {
                name.substring_char(d + 1, n)
            } else {
                name.substring_char(0, 0)
            }
        },
        None => name.substring_char(0, 0),
    }
}

/// The base name of a file name (see `base_name_of`).
pub fn base_name(name: &str) -> (r: &str)
    ensures
        r@ == base_name_of(name@),
        extension_of(name@).len() > 0 ==> r@ == name@.subrange(
            0,
            name@.len() - extension_of(name@).len() - 1,
        ),
{
    let n = name.unicode_len();
    proof {
        lemma_last_index_bounds(name@, '.', name@.len() as int);
    }
    match last_index(name, '.') {
        Some(d) => {
            if d > 0 {
                name.substring_char(0, d)
            } else {
                assert(name@.subrange(0, n as int) =~= name@);
                name.substring_char(0, n)
            }
        },
        None => {
            assert(name@.subrange(0, n as int) =~= name@);
            name.substring_char(0, n)
        },
    }
}

/// The key under which the watermarked copy of `key` is stored:
/// `{watermarks_prefix}{base}-watermark.{ext}`.
pub fn destination_key(watermarks_prefix: &str, key: &str) -> (r: String)
    ensures
        r@ == destination_key_of(watermarks_prefix@, key@),
{
    let name = file_name(key);
    let base = base_name(name);
    let ext = extension(name);
    let mut r = String::from_str(watermarks_prefix);
    r.append(base);
    r.append("-watermark.");
    r.append(ext);
    proof {
        reveal_strlit("-watermark.");
        assert("-watermark."@ =~= watermark_infix());
    }
    r
}

/// The destination key is a function of the prefix, the base name and the
/// extension alone: it is `{prefix}{base}-watermark.{ext}`, so two source
/// keys with the same base name and extension get the same destination key
/// under the same prefix, however often it is computed.
pub proof fn lemma_destination_key_determined(prefix: Seq<char>, k1: Seq<char>, k2: Seq<char>)
    requires
        base_name_of(file_name_of(k1)) == base_name_of(file_name_of(k2)),
        extension_of(file_name_of(k1)) == extension_of(file_name_of(k2)),
    ensures
        destination_key_of(prefix, k1) == destination_key_of(prefix, k2),
        destination_key_of(prefix, k1) == prefix + base_name_of(file_name_of(k1)) + watermark_infix()
            + extension_of(file_name_of(k1)),
        destination_key_of(prefix, k1).subrange(0, prefix.len() as int) == prefix,
{
    let d = destination_key_of(prefix, k1);
    assert(d.subrange(0, prefix.len() as int) =~= prefix);
}

/// Whether a listed key is a directory marker (it ends in `/`).
pub fn is_directory_marker(key: &str) -> (r: bool)
    ensures
        r == is_directory_marker_of(key@),
{
    let n = key.unicode_len();
    n > 0 && key.get_char(n - 1) == '/'
}

} // verus!
