//! Path strings: joining, component-wise prefixes, relative parts.
//!
//! Paths are kept as plain strings; a separator is `'/'`.  The prefix test
//! is component-aware, so `/a/b` is a prefix of `/a/b/c` but not of
//! `/a/bc`.

use vstd::prelude::*;

verus! {

/// `root` joined with a relative directory `path`.  An empty `path` or
/// `"."` names `root` itself.
pub open spec fn spec_join(root: Seq<char>, path: Seq<char>) -> Seq<char> {
    if path.len() == 0 || path == seq!['.'] {
        root
    } else if root.len() > 0 && root.last() == '/' {
        root + path
    } else {
        root + seq!['/'] + path
    }
}

/// Component-wise path prefix: `base` names a directory at or above `p`.
pub open spec fn is_path_prefix(base: Seq<char>, p: Seq<char>) -> bool {
    base == p || (base.len() < p.len() && p.take(base.len() as int) == base && (p[base.len() as int]
        == '/' || (base.len() > 0 && base.last() == '/')))
}

/// The part of `p` below the directory `base`, without a leading separator.
pub open spec fn spec_rel(base: Seq<char>, p: Seq<char>) -> Seq<char> {
    if base == p {
        Seq::empty()
    } else if base.len() > 0 && base.last() == '/' {
        p.skip(base.len() as int)
    } else {
        p.skip(base.len() as int + 1)
    }
}

pub fn join_paths(root: &str, path: &str) -> (r: String)
    ensures
        r@ == spec_join(root@, path@),
{
    let plen = path.unicode_len();
    if plen == 0 || (plen == 1 && path.get_char(0) == '.') {
        proof {
            if plen == 1 && path@[0] == '.' {
                assert(path@ =~= seq!['.']);
            }
        }
        return path_to_owned(root);
    }
    let rlen = root.unicode_len();
    let mut out = path_to_owned(root);
    if !(rlen > 0 && root.get_char(rlen - 1) == '/') {
        crate::hexfmt::string_push(&mut out, '/');
    }
    out.append(path);
    proof {
        assert(path@.len() != 0 && path@ != seq!['.']) by {
            assert(seq!['.'].len() == 1);
        }
    }
    out
}

fn path_to_owned(s: &str) -> (r: String)
    ensures
        r@ == s@,
{
    s.to_owned()
}

/// Whether `base` is a component-wise prefix of `p`.
pub fn path_starts_with(p: &str, base: &str) -> (r: bool)
    ensures
        r == is_path_prefix(base@, p@),
{
    let bl = base.unicode_len();
    let pl = p.unicode_len();
    if pl < bl {
        return false;
    }
    let mut i: usize = 0;
    while i < bl
        invariant
            i <= bl,
            bl == base@.len(),
            pl == p@.len(),
            bl <= pl,
            forall|k: int| 0 <= k < i ==> p@[k] == base@[k],
        decreases bl - i,
    {
        if p.get_char(i) != base.get_char(i) {
            proof {
                assert(p@.take(bl as int)[i as int] != base@[i as int]);
                assert(base@ != p@);
            }
            return false;
        }
        i = i + 1;
    }
    proof {
        assert(p@.take(bl as int) =~= base@);
    }
    if pl == bl {
        proof {
            assert(p@ =~= base@);
        }
        return true;
    }
    if bl > 0 && base.get_char(bl - 1) == '/' {
        return true;
    }
    p.get_char(bl) == '/'
}

/// Lexicographic order on paths, by code point.  UTF-8 encodes larger
/// code points as byte-wise larger sequences, so this is exactly the
/// byte-lexicographic order on the encoded strings.
pub open spec fn lex_le(x: Seq<char>, y: Seq<char>) -> bool
    decreases x.len(),
{
    if x.len() == 0 {
        true
    } else if y.len() == 0 {
        false
    } else if (x.first() as u32) == (y.first() as u32) {
        lex_le(x.drop_first(), y.drop_first())
    } else {
        (x.first() as u32) < (y.first() as u32)
    }
}

/// The order is total.
pub proof fn lemma_lex_total(x: Seq<char>, y: Seq<char>)
    ensures
        lex_le(x, y) || lex_le(y, x),
    decreases x.len(),
{
    if x.len() > 0 && y.len() > 0 && (x.first() as u32) == (y.first() as u32) {
        lemma_lex_total(x.drop_first(), y.drop_first());
    }
}

/// The order is transitive.
pub proof fn lemma_lex_trans(x: Seq<char>, y: Seq<char>, z: Seq<char>)
    requires
        lex_le(x, y),
        lex_le(y, z),
    ensures
        lex_le(x, z),
    decreases x.len(),
{
    if x.len() > 0 && y.len() > 0 && z.len() > 0 && (x.first() as u32) == (y.first() as u32) && (
    y.first() as u32) == (z.first() as u32) {
        lemma_lex_trans(x.drop_first(), y.drop_first(), z.drop_first());
    }
}

/// Whether `a` sorts at or before `b`.
pub fn le_path(a: &str, b: &str) -> (r: bool)
    ensures
        r == lex_le(a@, b@),
{
    let la = a.unicode_len();
    let lb = b.unicode_len();
    let mut i: usize = 0;
    proof {
        assert(a@.skip(0) =~= a@);
        assert(b@.skip(0) =~= b@);
    }
    while i < la && i < lb
        invariant
            i <= la,
            i <= lb,
            la == a@.len(),
            lb == b@.len(),
            lex_le(a@, b@) == lex_le(a@.skip(i as int), b@.skip(i as int)),
        decreases la - i,
    {
        let ca = a.get_char(i);
        let cb = b.get_char(i);
        proof {
            assert(a@.skip(i as int).first() == a@[i as int]);
            assert(b@.skip(i as int).first() == b@[i as int]);
        }
        if (ca as u32) != (cb as u32) {
            return (ca as u32) < (cb as u32);
        }
        proof {
            assert(a@.skip(i as int).drop_first() =~= a@.skip(i + 1 as int));
            assert(b@.skip(i as int).drop_first() =~= b@.skip(i + 1 as int));
        }
        i = i + 1;
    }
    proof {
        if i == la {
            assert(a@.skip(i as int).len() == 0);
        } else {
            assert(b@.skip(i as int).len() == 0 && a@.skip(i as int).len() > 0);
        }
    }
    la <= lb
}

/// The part of `p` below the directory `base`.
pub fn strip_path_prefix(p: &str, base: &str) -> (r: String)
    requires
        is_path_prefix(base@, p@),
    ensures
        r@ == spec_rel(base@, p@),
{
    let bl = base.unicode_len();
    let pl = p.unicode_len();
    let start: usize = if pl == bl {
        proof {
            assert(base@ =~= p@);
        }
        pl
    } else if bl > 0 && base.get_char(bl - 1) == '/' {
        bl
    } else {
        proof {
            assert(base@ != p@);
        }
        bl + 1
    };
    let mut out = String::new();
    let mut i: usize = start;
    while i < pl
        invariant
            start <= i <= pl,
            pl == p@.len(),
            out@ =~= p@.subrange(start as int, i as int),
        decreases pl - i,
    {
        let c = p.get_char(i);
        crate::hexfmt::string_push(&mut out, c);
        proof {
            assert(out@ =~= p@.subrange(start as int, i + 1 as int));
        }
        i = i + 1;
    }
    proof {
        assert(p@.subrange(start as int, pl as int) =~= p@.skip(start as int));
        if base@ == p@ {
            assert(out@ =~= spec_rel(base@, p@));
        }
    }
    out
}

} // verus!
