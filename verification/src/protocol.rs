//! Protocol types and deterministic subscription keys.
//!
//! A subscription key is the 128-bit digest of `root NUL path NUL glob`,
//! printed as 32 lower-case hex digits.  The same tuple yields the same key
//! in every process and across restarts; distinct tuples yield distinct
//! digest pre-images (shown below for NUL-free fields), so their keys
//! collide only if the hash function does.

use vstd::prelude::*;

use crate::digest::{hash_str_128, xxh128_of_str};
use crate::hexfmt::{spec_hex, string_push, to_hex32};

verus! {

/// Subscription key: a 128-bit digest as 32 lower-case hex characters.
pub type SubscriptionKey = String;

/// One request line from a client.
#[derive(Debug, Clone, PartialEq)]
pub enum Request {
    Hash { root: String, path: String, glob: String, persistent: bool },
    Watch { root: String, path: String, glob: String },
    Unwatch { key: String },
}

/// One response line to a client.
#[derive(Debug, Clone, PartialEq)]
pub enum Response {
    Hash { hash: String, file_count: usize },
    Watch { key: String },
    Okay { ok: bool },
    Error { error: String },
}

/// An unsolicited event pushed to subscribed clients.
#[derive(Debug, Clone, PartialEq)]
pub struct SubscriptionEvent {
    pub key: String,
    pub paths: Vec<String>,
}

/// The digest pre-image of a subscription tuple.
pub open spec fn key_preimage(root: Seq<char>, path: Seq<char>, glob: Seq<char>) -> Seq<char> {
    root + seq!['\0'] + path + seq!['\0'] + glob
}

/// The subscription key of a tuple: a pure function of the three fields.
pub open spec fn spec_subscription_key(root: Seq<char>, path: Seq<char>, glob: Seq<char>) -> Seq<
    char,
> {
    spec_hex(xxh128_of_str(key_preimage(root, path, glob)) as nat, 32)
}

/// Generate the deterministic 128-bit subscription key for a tuple.
pub fn make_subscription_key(root: &str, path: &str, glob: &str) -> (key: SubscriptionKey)
    ensures
        key@ == spec_subscription_key(root@, path@, glob@),
        key@.len() == 32,
{
    let mut pre = to_owned_str(root);
    string_push(&mut pre, '\0');
    pre.append(path);
    string_push(&mut pre, '\0');
    pre.append(glob);
    proof {
        assert(pre@ =~= key_preimage(root@, path@, glob@));
    }
    let h = hash_str_128(pre.as_str());
    to_hex32(h)
}

fn to_owned_str(s: &str) -> (r: String)
    ensures
        r@ == s@,
{
    s.to_owned()
}

/// No NUL character anywhere in the string.
pub open spec fn nul_free(s: Seq<char>) -> bool {
    forall|i: int| 0 <= i < s.len() ==> s[i] != '\0'
}

/// The subscription key is a pure function of its tuple: equal tuples give
/// equal keys, in any process and after any restart.
pub proof fn lemma_subscription_key_deterministic(
    r1: Seq<char>,
    p1: Seq<char>,
    g1: Seq<char>,
    r2: Seq<char>,
    p2: Seq<char>,
    g2: Seq<char>,
)
    requires
        r1 == r2,
        p1 == p2,
        g1 == g2,
    ensures
        spec_subscription_key(r1, p1, g1) == spec_subscription_key(r2, p2, g2),
{
}

/// Distinct NUL-free tuples have distinct digest pre-images, so their keys
/// differ unless the 128-bit hash itself collides.  (Hash collisions cannot
/// be excluded by proof; tests exercise distinctness on concrete tuples.)
pub proof fn lemma_key_preimage_injective(
    r1: Seq<char>,
    p1: Seq<char>,
    g1: Seq<char>,
    r2: Seq<char>,
    p2: Seq<char>,
    g2: Seq<char>,
)
    requires
        nul_free(r1),
        nul_free(p1),
        nul_free(g1),
        nul_free(r2),
        nul_free(p2),
        nul_free(g2),
        key_preimage(r1, p1, g1) == key_preimage(r2, p2, g2),
    ensures
        r1 == r2,
        p1 == p2,
        g1 == g2,
{
    let a = key_preimage(r1, p1, g1);
    let b = key_preimage(r2, p2, g2);
    assert(a.len() == r1.len() + 1 + p1.len() + 1 + g1.len());
    assert(b.len() == r2.len() + 1 + p2.len() + 1 + g2.len());
    assert(r1.len() == r2.len()) by {
        if r1.len() < r2.len() {
            assert(a[r1.len() as int] == '\0');
            assert(b[r1.len() as int] == r2[r1.len() as int]);
            assert(r2[r1.len() as int] != '\0');
        } else if r2.len() < r1.len() {
            assert(b[r2.len() as int] == '\0');
            assert(a[r2.len() as int] == r1[r2.len() as int]);
            assert(r1[r2.len() as int] != '\0');
        }
    }
    assert(r1 =~= r2) by {
        assert forall|i: int| 0 <= i < r1.len() implies r1[i] == r2[i] by {
            assert(a[i] == r1[i]);
            assert(b[i] == r2[i]);
        }
    }
    let off = r1.len() as int + 1;
    assert(p1.len() == p2.len()) by {
        if p1.len() < p2.len() {
            assert(a[off + p1.len() as int] == '\0');
            assert(b[off + p1.len() as int] == p2[p1.len() as int]);
            assert(p2[p1.len() as int] != '\0');
        } else if p2.len() < p1.len() {
            assert(b[off + p2.len() as int] == '\0');
            assert(a[off + p2.len() as int] == p1[p2.len() as int]);
            assert(p1[p2.len() as int] != '\0');
        }
    }
    assert(p1 =~= p2) by {
        assert forall|i: int| 0 <= i < p1.len() implies p1[i] == p2[i] by {
            assert(a[off + i] == p1[i]);
            assert(b[off + i] == p2[i]);
        }
    }
    let off2 = off + p1.len() as int + 1;
    assert(g1.len() == g2.len());
    assert(g1 =~= g2) by {
        assert forall|i: int| 0 <= i < g1.len() implies g1[i] == g2[i] by {
            assert(a[off2 + i] == g1[i]);
            assert(b[off2 + i] == g2[i]);
        }
    }
}

} // verus!
