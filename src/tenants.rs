//! Tenant namespaces: which listed directories name a tenant, and the
//! source and destination prefixes of each tenant.
use vstd::prelude::*;

verus! {

pub open spec fn is_lower_hex(c: char) -> bool {
    ('0' <= c && c <= '9') || ('a' <= c && c <= 'f')
}

pub open spec fn is_dash_position(i: int) -> bool {
    i == 8 || i == 13 || i == 18 || i == 23
}

/// The canonical 8-4-4-4-12 lower-case hexadecimal shape of a UUID.
pub open spec fn is_canonical_uuid(u: Seq<char>) -> bool {
    &&& u.len() == 36
    &&& forall|i: int|
        0 <= i < 36 ==> if is_dash_position(i) {
            #[trigger] u[i] == '-'
        } else {
            is_lower_hex(u[i])
        }
}

pub open spec fn users_root() -> Seq<char> {
    seq!['u', 's', 'e', 'r', 's', '/']
}

/// A listed directory `users/{uuid}/` whose identifier has the canonical shape.
pub open spec fn is_tenant_directory_of(p: Seq<char>) -> bool {
    &&& p.len() == 43
    &&& p.subrange(0, 6) == users_root()
    &&& is_canonical_uuid(p.subrange(6, 42))
    &&& p[42] == '/'
}

pub open spec fn tenant_id_of(p: Seq<char>) -> Seq<char> {
    p.subrange(6, 42)
}

/// The identifiers of the tenant directories among `ps`, in listing order.
pub open spec fn tenant_ids_of(ps: Seq<Seq<char>>) -> Seq<Seq<char>>
    decreases ps.len(),
{
    if ps.len() == 0 {
        Seq::empty()
    } else {
        let rest = tenant_ids_of(ps.drop_last());
        if is_tenant_directory_of(ps.last()) {
            rest.push(tenant_id_of(ps.last()))
        } else {
            rest
        }
    }
}

/// Every tenant identifier found has the canonical UUID shape, and
/// `users/{id}/` is among the listed prefixes.
pub proof fn lemma_tenant_ids_sound(ps: Seq<Seq<char>>)
    ensures
        forall|i: int|
            0 <= i < tenant_ids_of(ps).len() ==> is_canonical_uuid(#[trigger] tenant_ids_of(ps)[i])
                && exists|j: int| 0 <= j < ps.len() && ps[j] == users_root() + tenant_ids_of(ps)[i] + seq!['/'],
    decreases ps.len(),
{
    if ps.len() > 0 {
        let rest = ps.drop_last();
        lemma_tenant_ids_sound(rest);
        let ids = tenant_ids_of(ps);
        let old_ids = tenant_ids_of(rest);
        assert forall|i: int| 0 <= i < ids.len() implies is_canonical_uuid(#[trigger] ids[i])
            && exists|j: int| 0 <= j < ps.len() && ps[j] == users_root() + ids[i] + seq!['/'] by {
            if i < old_ids.len() {
                assert(ids[i] == old_ids[i]);
                let j = choose|j: int| 0 <= j < rest.len() && rest[j] == users_root() + old_ids[i] + seq!['/'];
                assert(ps[j] == rest[j]);
            } else {
                let p = ps.last();
                assert(is_tenant_directory_of(p));
                assert(ids[i] == tenant_id_of(p));
                assert(p =~= p.subrange(0, 6) + tenant_id_of(p) + seq!['/']);
                assert(ps[ps.len() - 1] == p);
            }
        }
    }
}

pub open spec fn views(v: Seq<String>) -> Seq<Seq<char>> {
    v.map_values(|s: String| s@)
}

fn is_lower_hex_char(c: char) -> (r: bool)
    ensures
        r == is_lower_hex(c),
{
    ('0' <= c && c <= '9') || ('a' <= c && c <= 'f')
}

/// Whether `u` has the canonical UUID shape.
pub fn is_canonical_uuid_str(u: &str) -> (r: bool)
    ensures
        r == is_canonical_uuid(u@),
{
    if u.unicode_len() != 36 {
        return false;
    }
    let mut i: usize = 0;
    while i < 36
        invariant
            u@.len() == 36,
            i <= 36,
            forall|j: int|
                0 <= j < i ==> if is_dash_position(j) {
                    #[trigger] u@[j] == '-'
                } else {
                    is_lower_hex(u@[j])
                },
        decreases 36 - i,
    {
        let c = u.get_char(i);
        let ok = if i == 8 || i == 13 || i == 18 || i == 23 {
            c == '-'
        } else {
            is_lower_hex_char(c)
        };
        if !ok {
            return false;
        }
        i = i + 1;
    }
    true
}

/// Whether a listed prefix is a tenant directory `users/{uuid}/`.
/// Anything else (a malformed identifier, another shape) is rejected.
pub fn is_tenant_directory(p: &str) -> (r: bool)
    ensures
        r == is_tenant_directory_of(p@),
{
    if p.unicode_len() != 43 {
        return false;
    }
    proof {
        reveal_strlit("users/");
    }
    let head = p.substring_char(0, 6);
    let mut i: usize = 0;
    while i < 6
        invariant
            p@.len() == 43,
            head@ == p@.subrange(0, 6),
            "users/"@ == users_root(),
            i <= 6,
            forall|j: int| 0 <= j < i ==> head@[j] == users_root()[j],
        decreases 6 - i,
    {
        if head.get_char(i) != "users/".get_char(i) {
            return false;
        }
        i = i + 1;
    }
    assert(head@ =~= users_root());
    is_canonical_uuid_str(p.substring_char(6, 42)) && p.get_char(42) == '/'
}

/// The tenant identifiers among the listed prefixes, in listing order;
/// prefixes that are not tenant directories are dropped.
pub fn tenant_ids(prefixes: &Vec<String>) -> (r: Vec<String>)
    ensures
        views(r@) == tenant_ids_of(views(prefixes@)),
{
    let mut r: Vec<String> = Vec::new();
    let mut i: usize = 0;
    while i < prefixes.len()
        invariant
            i <= prefixes@.len(),
            views(r@) == tenant_ids_of(views(prefixes@.subrange(0, i as int))),
        decreases prefixes@.len() - i,
    {
        let p = prefixes[i].as_str();
        proof {
            let ps = views(prefixes@.subrange(0, i + 1));
            assert(ps.drop_last() =~= views(prefixes@.subrange(0, i as int)));
            assert(ps.last() == prefixes@[i as int]@);
        }
        if is_tenant_directory(p) {
            let id = String::from_str(p.substring_char(6, 42));
            r.push(id);
            proof {
                assert(views(r@) =~= tenant_ids_of(views(prefixes@.subrange(0, i as int))).push(id@));
            }
        }
        i = i + 1;
    }
    assert(prefixes@.subrange(0, prefixes@.len() as int) =~= prefixes@);
    r
}

pub open spec fn originals_dir() -> Seq<char> {
    seq!['o', 'r', 'i', 'g', 'i', 'n', 'a', 'l', 's', '/']
}

pub open spec fn watermarks_dir() -> Seq<char> {
    seq!['w', 'a', 't', 'e', 'r', 'm', 'a', 'r', 'k', 's', '/']
}

/// Source and destination prefixes of one namespace.
pub struct PrefixPair {
    pub originals: String,
    pub watermarks: String,
}

/// The prefixes of tenant `id`: `users/{id}/originals/` and `users/{id}/watermarks/`.
pub fn tenant_prefixes(id: &str) -> (r: PrefixPair)
    ensures
        r.originals@ == users_root() + id@ + seq!['/'] + originals_dir(),
        r.watermarks@ == users_root() + id@ + seq!['/'] + watermarks_dir(),
{
    proof {
        reveal_strlit("users/");
        reveal_strlit("/originals/");
        reveal_strlit("/watermarks/");
    }
    let mut originals = String::from_str("users/");
    originals.append(id);
    originals.append("/originals/");
    let mut watermarks = String::from_str("users/");
    watermarks.append(id);
    watermarks.append("/watermarks/");
    assert(originals@ =~= users_root() + id@ + seq!['/'] + originals_dir());
    assert(watermarks@ =~= users_root() + id@ + seq!['/'] + watermarks_dir());
    PrefixPair { originals, watermarks }
}

/// The single pair of a flat, single-tenant store: `originals/` and `watermarks/`.
pub fn flat_prefixes() -> (r: PrefixPair)
    ensures
        r.originals@ == originals_dir(),
        r.watermarks@ == watermarks_dir(),
{
    proof {
        reveal_strlit("originals/");
        reveal_strlit("watermarks/");
    }
    let r = PrefixPair {
        originals: String::from_str("originals/"),
        watermarks: String::from_str("watermarks/"),
    };
    assert(r.originals@ =~= originals_dir());
    assert(r.watermarks@ =~= watermarks_dir());
    r
}

/// The prefix pairs of one cycle. In a flat store, the single fixed pair;
/// otherwise one pair per tenant directory among the listed prefixes, in
/// listing order (others are dropped, and none at all is no error).
pub fn discover_prefixes(listed: &Vec<String>, flat: bool) -> (r: Vec<PrefixPair>)
    ensures
        flat ==> r@.len() == 1 && r@[0].originals@ == originals_dir() && r@[0].watermarks@
            == watermarks_dir(),
        !flat ==> r@.len() == tenant_ids_of(views(listed@)).len() && forall|i: int|
            0 <= i < r@.len() ==> {
                let id = tenant_ids_of(views(listed@))[i];
                &&& (#[trigger] r@[i]).originals@ == users_root() + id + seq!['/'] + originals_dir()
                &&& r@[i].watermarks@ == users_root() + id + seq!['/'] + watermarks_dir()
            },
{
    let mut r: Vec<PrefixPair> = Vec::new();
    if flat {
        r.push(flat_prefixes());
        return r;
    }
    let ids = tenant_ids(listed);
    let mut i: usize = 0;
    while i < ids.len()
        invariant
            i <= ids@.len(),
            views(ids@) == tenant_ids_of(views(listed@)),
            r@.len() == i,
            forall|j: int|
                0 <= j < i ==> {
                    let id = views(ids@)[j];
                    &&& (#[trigger] r@[j]).originals@ == users_root() + id + seq!['/'] + originals_dir()
                    &&& r@[j].watermarks@ == users_root() + id + seq!['/'] + watermarks_dir()
                },
        decreases ids@.len() - i,
    {
        let pair = tenant_prefixes(ids[i].as_str());
        r.push(pair);
        i = i + 1;
    }
    r
}

} // verus!
