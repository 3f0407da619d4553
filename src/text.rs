use vstd::prelude::*;
use vstd::string::*;

verus! {

/// `a` sorts no later than `b`, comparing characters by code point from the left;
/// a proper prefix sorts first.
pub open spec fn lex_le(a: Seq<char>, b: Seq<char>) -> bool
    decreases a.len(),
{
    if a.len() == 0 {
        true
    } else if b.len() == 0 {
        false
    } else if a[0] != b[0] {
        (a[0] as int) < (b[0] as int)
    } else {
        lex_le(a.drop_first(), b.drop_first())
    }
}

/// The path `name` inside directory `base`, for a `name` that holds no `/`:
/// a separator is put between them unless `base` is empty or already ends in one.
pub open spec fn path_join(base: Seq<char>, name: Seq<char>) -> Seq<char> {
    if base.len() == 0 {
        name
    } else if base.last() == '/' {
        base + name
    } else {
        base + seq!['/'] + name
    }
}

/// `id` with every path separator `/` replaced by `_`.
pub open spec fn path_safe(id: Seq<char>) -> Seq<char> {
    id.map_values(|c: char| if c == '/' { '_' } else { c })
}

/// Whether `a` sorts no later than `b` (see `lex_le`).
pub fn name_le(a: &str, b: &str) -> (r: bool)
    ensures
        r == lex_le(a@, b@),
{
    let alen = a.unicode_len();
    let blen = b.unicode_len();
    let mut i: usize = 0;
    assert(a@.subrange(0, alen as int) =~= a@);
    assert(b@.subrange(0, blen as int) =~= b@);
    while i < alen && i < blen
        invariant
            alen == a@.len(),
            blen == b@.len(),
            i <= alen,
            i <= blen,
            lex_le(a@, b@) == lex_le(
                a@.subrange(i as int, alen as int),
                b@.subrange(i as int, blen as int),
            ),
        decreases alen - i,
    {
        let ca = a.get_char(i);
        let cb = b.get_char(i);
        let ghost sa = a@.subrange(i as int, alen as int);
        let ghost sb = b@.subrange(i as int, blen as int);
        assert(sa[0] == ca && sb[0] == cb);
        if ca != cb {
            return (ca as u32) < (cb as u32);
        }
        assert(sa.drop_first() =~= a@.subrange(i + 1, alen as int));
        assert(sb.drop_first() =~= b@.subrange(i + 1, blen as int));
        i = i + 1;
    }
    i == alen
}

/// Whether `s` holds the character `c`.
pub fn has_char(s: &str, c: char) -> (r: bool)
    ensures
        r == s@.contains(c),
{
    let n = s.unicode_len();
    let mut i: usize = 0;
    while i < n
        invariant
            n == s@.len(),
            i <= n,
            forall|j: int| 0 <= j < i ==> s@[j] != c,
        decreases n - i,
    {
        if s.get_char(i) == c {
            return true;
        }
        i = i + 1;
    }
    false
}

/// The path `name` inside directory `base` (see `path_join`).
pub fn join_path(base: &str, name: &str) -> (r: String)
    ensures
        r@ == path_join(base@, name@),
{
    let n = base.unicode_len();
    let mut r = String::from_str(base);
    if n > 0 && base.get_char(n - 1) != '/' {
        proof {
            reveal_strlit("/");
        }
        r.append("/");
    }
    r.append(name);
    r
}

/// `id` with every `/` replaced by `_` (see `path_safe`).
pub fn replace_separators(id: &str) -> (r: String)
    ensures
        r@ == path_safe(id@),
{
    let n = id.unicode_len();
    let mut r = String::new();
    let mut start: usize = 0;
    let mut i: usize = 0;
    while i < n
        invariant
            n == id@.len(),
            start <= i <= n,
            r@ + id@.subrange(start as int, i as int) =~= path_safe(id@).subrange(0, i as int),
        decreases n - i,
    {
        let ghost ps = path_safe(id@);
        let ghost r0 = r@;
        let ghost s0 = start;
        assert(ps.len() == n);
        assert(ps.subrange(0, i + 1) =~= ps.subrange(0, i as int).push(ps[i as int]));
        if id.get_char(i) == '/' {
            assert(ps[i as int] == '_');
            proof {
                reveal_strlit("_");
            }
            let seg = id.substring_char(start, i);
            r.append(seg);
            r.append("_");
            start = i + 1;
            assert(r@ =~= r0 + id@.subrange(s0 as int, i as int) + seq!['_']);
            assert(id@.subrange(start as int, i + 1).len() == 0);
            assert(r@ + id@.subrange(start as int, i + 1) =~= ps.subrange(0, i + 1));
        } else {
            assert(ps[i as int] == id@[i as int]);
            assert(id@.subrange(s0 as int, i + 1) =~= id@.subrange(s0 as int, i as int).push(
                id@[i as int],
            ));
            assert(r@ + id@.subrange(start as int, i + 1) =~= ps.subrange(0, i + 1));
        }
        i = i + 1;
    }
    let tail = id.substring_char(start, n);
    let ghost r0 = r@;
    r.append(tail);
    assert(r@ =~= r0 + id@.subrange(start as int, n as int));
    assert(path_safe(id@).subrange(0, n as int) =~= path_safe(id@));
    r
}

/// A buildpack id made safe for a directory name keeps its length, has `_` wherever
/// the id has the separator `/`, and every other character unchanged.
pub proof fn path_safe_replaces_only_separators(id: Seq<char>)
    ensures
        path_safe(id).len() == id.len(),
        forall|i: int|
            0 <= i < id.len() ==> #[trigger] path_safe(id)[i] == (if id[i] == '/' {
                '_'
            } else {
                id[i]
            }),
        !path_safe(id).contains('/'),
{
}

} // verus!
