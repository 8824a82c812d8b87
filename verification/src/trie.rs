//! The Merkle-Patricia trie of the machine state: the node codec (hex-prefix
//! paths, RLP, Keccak-256 references) and the trie over a sorted list of
//! fixed-length keys.

use vstd::prelude::*;

verus! {

/// The Keccak-256 digest of `data`, as `tiny_keccak` computes it.
pub uninterp spec fn keccak256_spec(data: Seq<u8>) -> Seq<u8>;

/// `tiny_keccak::Keccak::v256` fed with `data` and finalised into a buffer of
/// 32 bytes: the contract names the digest and states its length.
#[verifier::external_body]
pub(crate) fn keccak256(data: &[u8]) -> (r: Vec<u8>)
    ensures
        r@ == keccak256_spec(data@),
        r@.len() == 32,
{
    let mut hasher = tiny_keccak::Keccak::v256();
    tiny_keccak::Hasher::update(&mut hasher, data);
    let mut out = [0u8; 32];
    tiny_keccak::Hasher::finalize(hasher, &mut out);
    out.to_vec()
}

/// The RLP encoding of the empty byte string, which is also the empty node.
pub const RLP_EMPTY: u8 = 0x80;

/// The bytes of `n`, most significant first, without leading zeros.
pub open spec fn be_min(n: nat) -> Seq<u8>
    decreases n,
{
    if n == 0 {
        Seq::empty()
    } else {
        be_min(n / 256).push((n % 256) as u8)
    }
}

/// The bytes of `n`, most significant first, without leading zeros.
pub fn be_min_bytes(n: usize) -> (r: Vec<u8>)
    ensures
        r@ == be_min(n as nat),
        r@.len() <= 8,
{
    let mut digits: Vec<u8> = Vec::new();
    let mut m: usize = n;
    // least significant first
    while m > 0
        invariant
            digits@.len() <= 8,
            m * pow256_int(digits@.len() as nat) <= n,
            be_min(n as nat) == be_min(m as nat) + digits@.reverse(),
        decreases m,
    {
        let d = (m % 256) as u8;
        proof {
            let k = digits@.len() as nat;
            assert(be_min(m as nat) == be_min((m / 256) as nat).push(d));
            assert(digits@.push(d).reverse() =~= seq![d] + digits@.reverse());
            assert(be_min((m / 256) as nat).push(d) + digits@.reverse() =~= be_min(
                (m / 256) as nat,
            ) + digits@.push(d).reverse());
            lemma_pow256_bound(m as int, n as int, k);
            assert(pow256_int(k + 1) == 256 * pow256_int(k));
            assert((m / 256) * (256 * pow256_int(k)) <= m * pow256_int(k)) by (nonlinear_arith)
                requires
                    m >= 0,
                    pow256_int(k) > 0,
            ;
        }
        digits.push(d);
        m = m / 256;
    }
    let mut out: Vec<u8> = Vec::new();
    let len = digits.len();
    let mut i: usize = 0;
    while i < len
        invariant
            len == digits@.len(),
            0 <= i <= len,
            out@ == digits@.reverse().take(i as int),
        decreases len - i,
    {
        out.push(digits[len - 1 - i]);
        assert(out@ =~= digits@.reverse().take(i + 1));
        i += 1;
    }
    assert(out@ =~= digits@.reverse());
    assert(be_min(0) + digits@.reverse() =~= digits@.reverse());
    out
}

/// 256 to the power `k`.
pub open spec fn pow256_int(k: nat) -> int
    decreases k,
{
    if k == 0 {
        1
    } else {
        256 * pow256_int((k - 1) as nat)
    }
}

/// A positive number that, times 256 to the `k`, stays within `usize` has
/// fewer than eight digits behind it.
proof fn lemma_pow256_bound(m: int, n: int, k: nat)
    requires
        m > 0,
        k <= 8,
        m * pow256_int(k) <= n,
        n <= usize::MAX,
    ensures
        k < 8,
        pow256_int(k) > 0,
{
    reveal_with_fuel(pow256_int, 10);
    assert(pow256_int(8) == 0x1_0000_0000_0000_0000);
    if k == 8 {
        assert(m * pow256_int(8) >= pow256_int(8)) by (nonlinear_arith)
            requires
                m >= 1,
                pow256_int(8) > 0,
        ;
    }
}

/// The RLP encoding of the byte string `b`.
pub open spec fn rlp_bytes_spec(b: Seq<u8>) -> Seq<u8> {
    if b.len() == 1 && b[0] < 0x80 {
        b
    } else if b.len() <= 55 {
        seq![(0x80 + b.len()) as u8] + b
    } else {
        seq![(0xb7 + be_min(b.len()).len()) as u8] + be_min(b.len()) + b
    }
}

/// The RLP encoding of a list whose encoded items are `payload`.
pub open spec fn rlp_list_spec(payload: Seq<u8>) -> Seq<u8> {
    if payload.len() <= 55 {
        seq![(0xc0 + payload.len()) as u8] + payload
    } else {
        seq![(0xf7 + be_min(payload.len()).len()) as u8] + be_min(payload.len()) + payload
    }
}

/// Appends `tail` to `head`.
fn concat(head: Vec<u8>, tail: &Vec<u8>) -> (r: Vec<u8>)
    ensures
        r@ == head@ + tail@,
{
    let mut out = head;
    let mut t = vstd::slice::slice_to_vec(tail.as_slice());
    out.append(&mut t);
    out
}

/// A length prefix: `short + len` for up to 55 bytes, else `long` plus the
/// number of length bytes, followed by the length.
fn rlp_header(len: usize, short: u8, long: u8) -> (r: Vec<u8>)
    requires
        short <= 0xc0,
        long <= 0xf7,
    ensures
        r@ == (if len <= 55 {
            seq![(short + len) as u8]
        } else {
            seq![(long + be_min(len as nat).len()) as u8] + be_min(len as nat)
        }),
{
    let mut out: Vec<u8> = Vec::new();
    if len <= 55 {
        out.push(short + len as u8);
        assert(out@ =~= seq![(short + len) as u8]);
        out
    } else {
        let l = be_min_bytes(len);
        out.push(long + l.len() as u8);
        let r = concat(out, &l);
        assert(r@ =~= seq![(long + be_min(len as nat).len()) as u8] + be_min(len as nat));
        r
    }
}

/// The RLP encoding of the byte string `b`.
pub fn rlp_bytes(b: &Vec<u8>) -> (r: Vec<u8>)
    ensures
        r@ == rlp_bytes_spec(b@),
{
    if b.len() == 1 && b[0] < 0x80 {
        let r = vstd::slice::slice_to_vec(b.as_slice());
        r
    } else {
        let h = rlp_header(b.len(), 0x80, 0xb7);
        concat(h, b)
    }
}

/// The RLP encoding of a list whose encoded items are `payload`.
pub fn rlp_list(payload: &Vec<u8>) -> (r: Vec<u8>)
    ensures
        r@ == rlp_list_spec(payload@),
{
    let h = rlp_header(payload.len(), 0xc0, 0xf7);
    concat(h, payload)
}

/// Nibble `i` of the 8 nibbles of `key`, most significant first.
pub open spec fn nibble_spec(key: u32, i: int) -> u8 {
    ((key as int / pow16(7 - i)) % 16) as u8
}

/// 16 to the power `k`.
pub open spec fn pow16(k: int) -> int
    decreases k,
{
    if k <= 0 {
        1
    } else {
        16 * pow16(k - 1)
    }
}

/// Nibble `i` of the 8 nibbles of `key`, most significant first.
pub fn nibble(key: u32, i: usize) -> (r: u8)
    requires
        i < 8,
    ensures
        r == nibble_spec(key, i as int),
        r < 16,
{
    proof {
        reveal_with_fuel(pow16, 9);
    }
    let p: u32 = if i == 0 {
        0x1000_0000
    } else if i == 1 {
        0x100_0000
    } else if i == 2 {
        0x10_0000
    } else if i == 3 {
        0x1_0000
    } else if i == 4 {
        0x1000
    } else if i == 5 {
        0x100
    } else if i == 6 {
        0x10
    } else {
        1
    };
    assert(p == pow16(7 - i));
    ((key / p) % 16) as u8
}

/// The nibbles `from..to` of `key`.
pub open spec fn nibbles_spec(key: u32, from: int, to: int) -> Seq<u8> {
    Seq::new((to - from) as nat, |i: int| nibble_spec(key, from + i))
}

/// The hex-prefix encoding of a path: the first nibble holds the flags, 2 for
/// a leaf and 1 for an odd number of nibbles; an odd path puts its first
/// nibble beside the flags, an even one a zero nibble.
pub open spec fn hex_prefix_spec(path: Seq<u8>, leaf: bool) -> Seq<u8> {
    let flag: int = if leaf {
        2
    } else {
        0
    };
    if path.len() % 2 == 1 {
        Seq::new(
            (path.len() / 2 + 1) as nat,
            |i: int|
                if i == 0 {
                    ((flag + 1) * 16 + path[0]) as u8
                } else {
                    (path[2 * i - 1] * 16 + path[2 * i]) as u8
                },
        )
    } else {
        Seq::new(
            (path.len() / 2 + 1) as nat,
            |i: int|
                if i == 0 {
                    (flag * 16) as u8
                } else {
                    (path[2 * i - 2] * 16 + path[2 * i - 1]) as u8
                },
        )
    }
}

/// The hex-prefix encoding of the nibbles `from..to` of `key`.
pub fn hex_prefix(key: u32, from: usize, to: usize, leaf: bool) -> (r: Vec<u8>)
    requires
        from <= to <= 8,
    ensures
        r@ == hex_prefix_spec(nibbles_spec(key, from as int, to as int), leaf),
{
    let n = to - from;
    let flag: u8 = if leaf { 2 } else { 0 };
    let ghost path = nibbles_spec(key, from as int, to as int);
    let mut out: Vec<u8> = Vec::new();
    let odd = n % 2 == 1;
    if odd {
        out.push((flag + 1) * 16 + nibble(key, from));
    } else {
        out.push(flag * 16);
    }
    let count = n / 2;
    let mut i: usize = 1;
    while i <= count
        invariant
            1 <= i <= count + 1,
            count == n / 2,
            n == to - from,
            from <= to <= 8,
            odd == (n % 2 == 1),
            path == nibbles_spec(key, from as int, to as int),
            out@.len() == i,
            forall|j: int| 0 <= j < i ==> out@[j] == hex_prefix_spec(path, leaf)[j],
        decreases count + 1 - i,
    {
        let a = if odd { 2 * i - 1 } else { 2 * i - 2 };
        let hi = nibble(key, from + a);
        let lo = nibble(key, from + a + 1);
        out.push(hi * 16 + lo);
        i += 1;
    }
    assert(out@ =~= hex_prefix_spec(path, leaf));
    out
}

/// The reference to a node from its parent: the node itself when its
/// encoding is shorter than 32 bytes, else the RLP encoding of its digest.
pub open spec fn child_ref_spec(enc: Seq<u8>) -> Seq<u8> {
    if enc.len() < 32 {
        enc
    } else {
        rlp_bytes_spec(keccak256_spec(enc))
    }
}

/// The reference to a node from its parent.
pub fn child_ref(enc: Vec<u8>) -> (r: Vec<u8>)
    ensures
        r@ == child_ref_spec(enc@),
{
    if enc.len() < 32 {
        enc
    } else {
        let h = keccak256(enc.as_slice());
        rlp_bytes(&h)
    }
}

/// A leaf: the list of the hex-prefixed rest of the key and the value.
pub open spec fn leaf_spec(key: u32, depth: int, value: Seq<u8>) -> Seq<u8> {
    rlp_list_spec(
        rlp_bytes_spec(hex_prefix_spec(nibbles_spec(key, depth, 8), true)) + rlp_bytes_spec(value),
    )
}

/// An extension: the list of the hex-prefixed shared path and the reference
/// to the node below.
pub open spec fn extension_spec(key: u32, from: int, to: int, child: Seq<u8>) -> Seq<u8> {
    rlp_list_spec(
        rlp_bytes_spec(hex_prefix_spec(nibbles_spec(key, from, to), false)) + child,
    )
}

/// A branch: the list of the sixteen child references, which `children`
/// holds one behind the other, and an empty value.
pub open spec fn branch_spec(children: Seq<u8>) -> Seq<u8> {
    rlp_list_spec(children.push(RLP_EMPTY))
}

/// The encoding of a leaf.
pub fn encode_leaf(key: u32, depth: usize, value: &Vec<u8>) -> (r: Vec<u8>)
    requires
        depth <= 8,
    ensures
        r@ == leaf_spec(key, depth as int, value@),
{
    let hp = hex_prefix(key, depth, 8, true);
    let a = rlp_bytes(&hp);
    let b = rlp_bytes(value);
    let payload = concat(a, &b);
    rlp_list(&payload)
}

/// The encoding of an extension.
pub fn encode_extension(key: u32, from: usize, to: usize, child: &Vec<u8>) -> (r: Vec<u8>)
    requires
        from <= to <= 8,
    ensures
        r@ == extension_spec(key, from as int, to as int, child@),
{
    let hp = hex_prefix(key, from, to, false);
    let a = rlp_bytes(&hp);
    let payload = concat(a, child);
    rlp_list(&payload)
}

/// The encoding of a branch.
pub fn encode_branch(children: Vec<u8>) -> (r: Vec<u8>)
    ensures
        r@ == branch_spec(children@),
{
    let mut payload = children;
    payload.push(RLP_EMPTY);
    rlp_list(&payload)
}

/// The root of the empty trie: the digest of the empty node.
pub open spec fn hashed_null_node_spec() -> Seq<u8> {
    keccak256_spec(seq![RLP_EMPTY])
}

/// The root of the empty trie.
pub fn hashed_null_node() -> (r: Vec<u8>)
    ensures
        r@ == hashed_null_node_spec(),
        r@.len() == 32,
{
    let mut e: Vec<u8> = Vec::new();
    e.push(RLP_EMPTY);
    assert(e@ =~= seq![RLP_EMPTY]);
    keccak256(e.as_slice())
}

/// A key of the trie, which stands for eight nibbles, and the word stored
/// under it, which stands for its four bytes, most significant first.
pub type Entry = (u32, u32);

/// The keys grow strictly.
pub open spec fn sorted_keys(s: Seq<Entry>) -> bool {
    forall|i: int, j: int| 0 <= i < j < s.len() ==> (#[trigger] s[i]).0 < (#[trigger] s[j]).0
}

/// The number of leading nibbles, from `d` on counted from the start, that
/// the keys `a` and `b` share.
pub open spec fn common_prefix(a: u32, b: u32, d: int) -> int
    decreases 8 - d,
{
    if d >= 8 || nibble_spec(a, d) != nibble_spec(b, d) {
        d
    } else {
        common_prefix(a, b, d + 1)
    }
}

/// The end of the run of entries from `lo` on, below `hi`, whose nibble at
/// `d` is `nib`.
pub open spec fn run_end(s: Seq<Entry>, lo: int, hi: int, d: int, nib: u8) -> int
    decreases hi - lo,
{
    if lo >= hi || nibble_spec(s[lo].0, d) != nib {
        lo
    } else {
        run_end(s, lo + 1, hi, d, nib)
    }
}

/// The node over the entries `lo..hi`, which share their first `d` nibbles: a
/// leaf for a single entry; else, where the entries share more nibbles, an
/// extension over those and the branch below it; else a branch.
pub open spec fn node_spec(s: Seq<Entry>, lo: int, hi: int, d: int) -> Seq<u8>
    decreases 8 - d, 2int, 0int,
{
    if hi - lo <= 1 || d >= 8 {
        leaf_spec(s[lo].0, d, crate::utils::be_bytes(s[lo].1 as u64, 4))
    } else {
        let cp = common_prefix(s[lo].0, s[hi - 1].0, d);
        if cp >= 8 {
            leaf_spec(s[lo].0, d, crate::utils::be_bytes(s[lo].1 as u64, 4))
        } else if cp > d {
            extension_spec(s[lo].0, d, cp, child_ref_spec(branch_node_spec(s, lo, hi, cp)))
        } else {
            branch_node_spec(s, lo, hi, d)
        }
    }
}

/// The branch over the entries `lo..hi` at depth `d`.
pub open spec fn branch_node_spec(s: Seq<Entry>, lo: int, hi: int, d: int) -> Seq<u8>
    decreases 8 - d, 1int, 0int,
{
    branch_spec(children_spec(s, lo, hi, d, 0))
}

/// The child references of a branch for the nibbles from `nib` on, one behind
/// the other: the empty node where no entry has the nibble, else the
/// reference to the node over the run of entries that have it.
pub open spec fn children_spec(s: Seq<Entry>, lo: int, hi: int, d: int, nib: int) -> Seq<u8>
    decreases 8 - d, 0int, 16 - nib,
{
    if nib >= 16 || nib < 0 || d >= 8 {
        Seq::empty()
    } else {
        let e = run_end(s, lo, hi, d, nib as u8);
        let child = if e == lo {
            seq![RLP_EMPTY]
        } else {
            child_ref_spec(node_spec(s, lo, e, d + 1))
        };
        child + children_spec(s, e, hi, d, nib + 1)
    }
}

/// The root of the trie over `s`: the digest of its top node, or of the empty
/// node.
pub open spec fn trie_root_spec(s: Seq<Entry>) -> Seq<u8> {
    if s.len() == 0 {
        hashed_null_node_spec()
    } else {
        keccak256_spec(node_spec(s, 0, s.len() as int, 0))
    }
}

/// The number of leading nibbles that two keys share, from `d` on.
pub fn shared_nibbles(a: u32, b: u32, d: usize) -> (r: usize)
    requires
        d <= 8,
    ensures
        r == common_prefix(a, b, d as int),
        d <= r <= 8,
    decreases 8 - d,
{
    if d >= 8 || nibble(a, d) != nibble(b, d) {
        d
    } else {
        shared_nibbles(a, b, d + 1)
    }
}

/// The end of the run of entries from `lo` on whose nibble at `d` is `nib`.
pub fn find_run_end(s: &Vec<Entry>, lo: usize, hi: usize, d: usize, nib: u8) -> (r: usize)
    requires
        lo <= hi <= s@.len(),
        d < 8,
    ensures
        r == run_end(s@, lo as int, hi as int, d as int, nib),
        lo <= r <= hi,
{
    let mut i = lo;
    while i < hi && nibble(s[i].0, d) == nib
        invariant
            lo <= i <= hi <= s@.len(),
            d < 8,
            run_end(s@, lo as int, hi as int, d as int, nib) == run_end(
                s@,
                i as int,
                hi as int,
                d as int,
                nib,
            ),
        decreases hi - i,
    {
        i += 1;
    }
    i
}

/// The four bytes of a word, most significant first.
pub fn value_bytes(v: u32) -> (r: Vec<u8>)
    ensures
        r@ == crate::utils::be_bytes(v as u64, 4),
{
    let mut out: Vec<u8> = Vec::new();
    crate::os::linux::syscall::push_be(&mut out, v as u64, 4);
    assert(out@ =~= crate::utils::be_bytes(v as u64, 4));
    out
}

/// The encoding of the node over the entries `lo..hi` at depth `d`.
pub fn build_node(s: &Vec<Entry>, lo: usize, hi: usize, d: usize) -> (r: Vec<u8>)
    requires
        lo < hi <= s@.len(),
        d <= 8,
    ensures
        r@ == node_spec(s@, lo as int, hi as int, d as int),
    decreases 8 - d, 2int, 0int,
{
    if hi - lo <= 1 || d >= 8 {
        let v = value_bytes(s[lo].1);
        return encode_leaf(s[lo].0, d, &v);
    }
    let cp = shared_nibbles(s[lo].0, s[hi - 1].0, d);
    if cp >= 8 {
        let v = value_bytes(s[lo].1);
        encode_leaf(s[lo].0, d, &v)
    } else if cp > d {
        let b = build_branch(s, lo, hi, cp);
        let c = child_ref(b);
        encode_extension(s[lo].0, d, cp, &c)
    } else {
        build_branch(s, lo, hi, d)
    }
}

/// The encoding of the branch over the entries `lo..hi` at depth `d`.
pub fn build_branch(s: &Vec<Entry>, lo: usize, hi: usize, d: usize) -> (r: Vec<u8>)
    requires
        lo <= hi <= s@.len(),
        d < 8,
    ensures
        r@ == branch_node_spec(s@, lo as int, hi as int, d as int),
    decreases 8 - d, 1int, 0int,
{
    let mut out: Vec<u8> = Vec::new();
    let mut cur = lo;
    let mut nib: u8 = 0;
    assert(out@ + children_spec(s@, cur as int, hi as int, d as int, 0) =~= children_spec(
        s@,
        lo as int,
        hi as int,
        d as int,
        0,
    ));
    while nib < 16
        invariant
            lo <= cur <= hi <= s@.len(),
            d < 8,
            0 <= nib <= 16,
            out@ + children_spec(s@, cur as int, hi as int, d as int, nib as int) == children_spec(
                s@,
                lo as int,
                hi as int,
                d as int,
                0,
            ),
        decreases 16 - nib,
    {
        let e = find_run_end(s, cur, hi, d, nib);
        let ghost before = out@;
        if e == cur {
            out.push(RLP_EMPTY);
            assert(out@ =~= before + seq![RLP_EMPTY]);
        } else {
            let n = build_node(s, cur, e, d + 1);
            let c = child_ref(n);
            out = concat(out, &c);
        }
        proof {
            let rest = children_spec(s@, e as int, hi as int, d as int, nib + 1);
            assert(out@ + rest =~= before + (out@.skip(before.len() as int) + rest));
            assert(out@.skip(before.len() as int) + rest =~= children_spec(
                s@,
                cur as int,
                hi as int,
                d as int,
                nib as int,
            ));
        }
        cur = e;
        nib += 1;
    }
    assert(out@ + Seq::<u8>::empty() =~= out@);
    encode_branch(out)
}

/// The root of the trie over the entries `s`, which are in order of key.
pub fn trie_root(s: &Vec<Entry>) -> (r: Vec<u8>)
    requires
        sorted_keys(s@),
    ensures
        r@ == trie_root_spec(s@),
        r@.len() == 32,
{
    if s.len() == 0 {
        hashed_null_node()
    } else {
        let top = build_node(s, 0, s.len(), 0);
        keccak256(top.as_slice())
    }
}

} // verus!
