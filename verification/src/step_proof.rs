//! The step-proof generator: the trie roots before and after one recorded
//! step, and the trie nodes that the accesses of the step visit.
//!
//! Registers are not part of the trie: a proof carries the registers before
//! and after the step beside the memory roots.

use crate::emulator::{MemAccess, StateChange};
use crate::engine::MemoryState;
use crate::os::linux::syscall::bytes_eq;
use crate::trie::{
    branch_node_spec, build_branch, build_node, common_prefix, find_run_end, nibble, nibble_spec,
    node_spec, rlp_bytes, rlp_bytes_spec, rlp_list, rlp_list_spec, run_end, shared_nibbles,
    sorted_keys, trie_root, trie_root_spec, Entry,
};
use crate::utils::be_bytes;
use vstd::prelude::*;

verus! {

/// First key of the registers, for tries that hold them: the key of the
/// address just above the 32-bit space.
pub const REG_START_KEY: u32 = 0x4000_0000;

/// The trie nodes and roots that witness one step.
#[derive(Debug)]
pub struct StepProof {
    pub root_before: Vec<u8>,
    pub root_after: Vec<u8>,
    pub access_nodes: Vec<Vec<u8>>,
    pub regs_before: Vec<(i32, u64)>,
    pub regs_after: Vec<(i32, u64)>,
}

/// Why no proof could be made of a step.
#[derive(Debug, Clone, Copy, PartialEq, Eq, Structural)]
pub enum StepProofError {
    /// The access at this position is not an aligned access to one word.
    NotWordAccess(usize),
    /// An address lies beyond the 32-bit space.
    AddressRange,
    /// The access at this position reads a word that the trie does not hold.
    MissingRead(usize),
}

/// The trie key of the word at `addr`: the address in words.
pub open spec fn trie_key_spec(addr: u64) -> u32 {
    (addr / 4) as u32
}

/// The trie key of the word at `addr`.
pub fn trie_key(addr: u64) -> (k: u32)
    requires
        addr <= u32::MAX,
    ensures
        k == trie_key_spec(addr),
{
    (addr / 4) as u32
}

/// The trie key of register `reg_id`, for tries that hold registers: the key
/// of the address `2^32 + 4 * reg_id`.
pub fn reg_key(reg_id: u32) -> (k: u32)
    requires
        reg_id < 0x4000_0000,
    ensures
        k as int == (0x1_0000_0000 + reg_id * 4) / 4,
{
    REG_START_KEY + reg_id
}

/// The word that an access carries: the low 32 bits of its value, most
/// significant byte first.
pub open spec fn access_word(a: MemAccess) -> Seq<u8> {
    be_bytes(crate::engine::low_word(a.value) as u64, 4)
}

/// The first position of `s`, from `i` on, whose key is not below `key`.
pub open spec fn lower_bound_spec(s: Seq<Entry>, key: u32, i: int) -> int
    decreases s.len() - i,
{
    if i >= s.len() || s[i].0 >= key {
        i
    } else {
        lower_bound_spec(s, key, i + 1)
    }
}

/// The entries `s` with the word `value` under `key`: in place of the old
/// word if the key is there, else at the place that keeps the keys in order.
pub open spec fn upsert_spec(s: Seq<Entry>, key: u32, value: u32) -> Seq<Entry> {
    let p = lower_bound_spec(s, key, 0);
    if p < s.len() && s[p].0 == key {
        s.update(p, (key, value))
    } else {
        s.insert(p, (key, value))
    }
}

/// The first position of `s` whose key is not below `key`.
pub fn lower_bound(s: &Vec<Entry>, key: u32) -> (p: usize)
    ensures
        p == lower_bound_spec(s@, key, 0),
        p <= s@.len(),
        forall|j: int| 0 <= j < p ==> (#[trigger] s@[j]).0 < key,
        p < s@.len() ==> s@[p as int].0 >= key,
{
    let mut i: usize = 0;
    while i < s.len() && s[i].0 < key
        invariant
            0 <= i <= s@.len(),
            lower_bound_spec(s@, key, 0) == lower_bound_spec(s@, key, i as int),
            forall|j: int| 0 <= j < i ==> (#[trigger] s@[j]).0 < key,
        decreases s@.len() - i,
    {
        i += 1;
    }
    i
}

/// Puts the word `value` under `key`, keeping the keys in order.
pub fn upsert(s: &mut Vec<Entry>, key: u32, value: u32)
    requires
        sorted_keys(old(s)@),
    ensures
        final(s)@ == upsert_spec(old(s)@, key, value),
        sorted_keys(final(s)@),
{
    let p = lower_bound(s, key);
    let ghost before = s@;
    if p < s.len() && s[p].0 == key {
        s.set(p, (key, value));
        assert forall|i: int, j: int| 0 <= i < j < s@.len() implies (#[trigger] s@[i]).0 < (
        #[trigger] s@[j]).0 by {
            assert(s@[i].0 == before[i].0 && s@[j].0 == before[j].0);
        }
    } else {
        s.insert(p, (key, value));
        assert forall|i: int, j: int| 0 <= i < j < s@.len() implies (#[trigger] s@[i]).0 < (
        #[trigger] s@[j]).0 by {
            let bi = if i < p { i } else { i - 1 };
            let bj = if j < p { j } else { j - 1 };
            if i != p {
                assert(s@[i] == before[bi]);
            }
            if j != p {
                assert(s@[j] == before[bj]);
            }
            if i == p && p < before.len() {
                assert(before[p as int].0 <= before[bj].0);
            }
        }
    }
}

/// The word under `key`, if the entries hold the key.
pub fn lookup(s: &Vec<Entry>, key: u32) -> (r: Option<u32>)
    requires
        sorted_keys(s@),
    ensures
        match r {
            Some(v) => exists|i: int| 0 <= i < s@.len() && #[trigger] s@[i] == (key, v),
            None => forall|i: int| 0 <= i < s@.len() ==> (#[trigger] s@[i]).0 != key,
        },
{
    let p = lower_bound(s, key);
    if p < s.len() && s[p].0 == key {
        assert(s@[p as int] == (key, s@[p as int].1));
        Some(s[p].1)
    } else {
        assert forall|i: int| 0 <= i < s@.len() implies (#[trigger] s@[i]).0 != key by {
            if i > p {
                assert(s@[p as int].0 < s@[i].0);
            }
        }
        None
    }
}

/// The node `enc` as the walk sees it: a node of 32 bytes or more, and the
/// top node, is fetched by its digest and therefore visited; a shorter node
/// lies inside its parent.
pub open spec fn visited(enc: Seq<u8>, top: bool) -> Seq<Seq<u8>> {
    if top || enc.len() >= 32 {
        seq![enc]
    } else {
        Seq::empty()
    }
}

/// The start of the run of entries with nibble `nib` at depth `d`, reached
/// by passing over the runs of the nibbles from `n` on below `nib`.
pub open spec fn child_start(s: Seq<Entry>, cur: int, hi: int, d: int, n: int, nib: int) -> int
    decreases nib - n,
{
    if n >= nib || n < 0 {
        cur
    } else {
        child_start(s, run_end(s, cur, hi, d, n as u8), hi, d, n + 1, nib)
    }
}

/// The nodes visited on the way from the node over `lo..hi` at depth `d`
/// towards `key`, top down.
pub open spec fn path_spec(s: Seq<Entry>, lo: int, hi: int, d: int, key: u32, top: bool) -> Seq<
    Seq<u8>,
>
    decreases 8 - d, 1int,
{
    visited(node_spec(s, lo, hi, d), top) + (if hi - lo <= 1 || d >= 8 {
        Seq::empty()
    } else {
        let cp = common_prefix(s[lo].0, s[hi - 1].0, d);
        if cp >= 8 {
            Seq::empty()
        } else if cp > d {
            if common_prefix(s[lo].0, key, d) < cp {
                Seq::empty()
            } else {
                visited(branch_node_spec(s, lo, hi, cp), false) + below_spec(s, lo, hi, cp, key)
            }
        } else {
            below_spec(s, lo, hi, d, key)
        }
    })
}

/// The nodes visited below the branch over `lo..hi` at depth `d` towards
/// `key`.
pub open spec fn below_spec(s: Seq<Entry>, lo: int, hi: int, d: int, key: u32) -> Seq<Seq<u8>>
    decreases 8 - d, 0int,
{
    if d >= 8 {
        Seq::empty()
    } else {
        let nib = nibble_spec(key, d);
        let a = child_start(s, lo, hi, d, 0, nib as int);
        let b = run_end(s, a, hi, d, nib);
        if a == b {
            Seq::empty()
        } else {
            path_spec(s, a, b, d + 1, key, false)
        }
    }
}

/// The nodes visited by a look-up of `key` in the trie over `s`.
pub open spec fn key_path_spec(s: Seq<Entry>, key: u32) -> Seq<Seq<u8>> {
    if s.len() == 0 {
        Seq::empty()
    } else {
        path_spec(s, 0, s.len() as int, 0, key, true)
    }
}

/// `acc` followed by those of `items` that it does not hold yet, each once.
pub open spec fn add_unique(acc: Seq<Seq<u8>>, items: Seq<Seq<u8>>) -> Seq<Seq<u8>>
    decreases items.len(),
{
    if items.len() == 0 {
        acc
    } else {
        let prev = add_unique(acc, items.drop_last());
        if prev.contains(items.last()) {
            prev
        } else {
            prev.push(items.last())
        }
    }
}

/// The byte strings that the vectors of `v` hold.
pub open spec fn views(v: Seq<Vec<u8>>) -> Seq<Seq<u8>> {
    v.map_values(|x: Vec<u8>| x@)
}

/// Adds `node` to `out` unless it is there already.
pub fn push_unique(out: &mut Vec<Vec<u8>>, node: Vec<u8>)
    ensures
        views(final(out)@) == add_unique(views(old(out)@), seq![node@]),
{
    let n = out.len();
    let mut i: usize = 0;
    let ghost acc = views(out@);
    proof {
        reveal_with_fuel(add_unique, 2);
        assert(seq![node@].drop_last() =~= Seq::<Seq<u8>>::empty());
        assert(seq![node@].last() == node@);
        assert(add_unique(acc, Seq::<Seq<u8>>::empty()) == acc);
        assert(add_unique(acc, seq![node@]) == (if acc.contains(node@) {
            acc
        } else {
            acc.push(node@)
        }));
    }
    while i < n
        invariant
            n == out@.len(),
            0 <= i <= n,
            out@ == old(out)@,
            acc == views(out@),
            add_unique(acc, seq![node@]) == (if acc.contains(node@) {
                acc
            } else {
                acc.push(node@)
            }),
            forall|j: int| 0 <= j < i ==> acc[j] != node@,
        decreases n - i,
    {
        if bytes_eq(out[i].as_slice(), node.as_slice()) {
            assert(acc[i as int] == node@);
            assert(acc.contains(node@));
            return ;
        }
        i += 1;
    }
    assert(!acc.contains(node@));
    out.push(node);
    assert(views(out@) =~= acc.push(node@));
}

/// Adding two lists one after the other adds their concatenation.
pub proof fn lemma_add_unique_concat(acc: Seq<Seq<u8>>, a: Seq<Seq<u8>>, b: Seq<Seq<u8>>)
    ensures
        add_unique(add_unique(acc, a), b) == add_unique(acc, a + b),
    decreases b.len(),
{
    if b.len() == 0 {
        assert(a + b =~= a);
    } else {
        lemma_add_unique_concat(acc, a, b.drop_last());
        assert((a + b).drop_last() =~= a + b.drop_last());
        assert((a + b).last() == b.last());
    }
}

/// Adds the node `enc` if the walk visits it.
fn note(out: &mut Vec<Vec<u8>>, enc: Vec<u8>, top: bool)
    ensures
        views(final(out)@) == add_unique(views(old(out)@), visited(enc@, top)),
{
    if top || enc.len() >= 32 {
        push_unique(out, enc);
    }
}

/// Adds to `out` the nodes visited on the way from the node over `lo..hi` at
/// depth `d` towards `key`.
pub fn record_path(
    s: &Vec<Entry>,
    lo: usize,
    hi: usize,
    d: usize,
    key: u32,
    top: bool,
    out: &mut Vec<Vec<u8>>,
)
    requires
        lo < hi <= s@.len(),
        d <= 8,
    ensures
        views(final(out)@) == add_unique(
            views(old(out)@),
            path_spec(s@, lo as int, hi as int, d as int, key, top),
        ),
    decreases 8 - d, 1int,
{
    let ghost acc0 = views(out@);
    let enc = build_node(s, lo, hi, d);
    let ghost first = visited(enc@, top);
    note(out, enc, top);
    if hi - lo <= 1 || d >= 8 {
        assert(first + Seq::<Seq<u8>>::empty() =~= first);
        return ;
    }
    let cp = shared_nibbles(s[lo].0, s[hi - 1].0, d);
    if cp >= 8 {
        assert(first + Seq::<Seq<u8>>::empty() =~= first);
    } else if cp > d {
        if shared_nibbles(s[lo].0, key, d) < cp {
            assert(first + Seq::<Seq<u8>>::empty() =~= first);
        } else {
            let b = build_branch(s, lo, hi, cp);
            let ghost second = visited(b@, false);
            note(out, b, false);
            record_below(s, lo, hi, cp, key, out);
            proof {
                let third = below_spec(s@, lo as int, hi as int, cp as int, key);
                lemma_add_unique_concat(acc0, first, second);
                lemma_add_unique_concat(acc0, first + second, third);
                assert(first + second + third =~= first + (second + third));
            }
        }
    } else {
        record_below(s, lo, hi, d, key, out);
        proof {
            lemma_add_unique_concat(
                acc0,
                first,
                below_spec(s@, lo as int, hi as int, d as int, key),
            );
        }
    }
}

/// Adds to `out` the nodes visited below the branch over `lo..hi` at depth
/// `d` towards `key`.
pub fn record_below(s: &Vec<Entry>, lo: usize, hi: usize, d: usize, key: u32, out: &mut Vec<Vec<u8>>)
    requires
        lo <= hi <= s@.len(),
        d < 8,
    ensures
        views(final(out)@) == add_unique(
            views(old(out)@),
            below_spec(s@, lo as int, hi as int, d as int, key),
        ),
    decreases 8 - d, 0int,
{
    let nib = nibble(key, d);
    let mut cur = lo;
    let mut n: u8 = 0;
    while n < nib
        invariant
            lo <= cur <= hi <= s@.len(),
            d < 8,
            0 <= n <= nib < 16,
            child_start(s@, lo as int, hi as int, d as int, 0, nib as int) == child_start(
                s@,
                cur as int,
                hi as int,
                d as int,
                n as int,
                nib as int,
            ),
        decreases nib - n,
    {
        cur = find_run_end(s, cur, hi, d, n);
        n += 1;
    }
    let b = find_run_end(s, cur, hi, d, nib);
    if cur != b {
        record_path(s, cur, b, d + 1, key, false, out);
    }
}

/// Adds to `out` the nodes that a look-up of `key` visits in the trie over
/// `s`.
pub fn record_key_path(s: &Vec<Entry>, key: u32, out: &mut Vec<Vec<u8>>)
    ensures
        views(final(out)@) == add_unique(views(old(out)@), key_path_spec(s@, key)),
{
    if s.len() > 0 {
        record_path(s, 0, s.len(), 0, key, true, out);
    }
}

/// What became of the trie and of the witness after the accesses `acc`, or
/// the reason why they cannot be replayed: each access visits the path of its
/// key in the trie as it then stands; a write then puts its word under the
/// key, a read needs the key to be there.
pub open spec fn replay_spec(s: Seq<Entry>, acc: Seq<MemAccess>) -> Result<
    (Seq<Entry>, Seq<Seq<u8>>),
    StepProofError,
>
    decreases acc.len(),
{
    if acc.len() == 0 {
        Ok((s, Seq::empty()))
    } else {
        match replay_spec(s, acc.drop_last()) {
            Err(e) => Err(e),
            Ok(st) => {
                let a = acc.last();
                let i = (acc.len() - 1) as usize;
                if !a.is_word() {
                    Err(StepProofError::NotWordAccess(i))
                } else if a.addr > u32::MAX {
                    Err(StepProofError::AddressRange)
                } else {
                    let key = trie_key_spec(a.addr);
                    let seen = add_unique(st.1, key_path_spec(st.0, key));
                    if a.write {
                        Ok((upsert_spec(st.0, key, word_of(a)), seen))
                    } else if has_key(st.0, key) {
                        Ok((st.0, seen))
                    } else {
                        Err(StepProofError::MissingRead(i))
                    }
                }
            },
        }
    }
}

/// The entries hold `key`.
pub open spec fn has_key(s: Seq<Entry>, key: u32) -> bool {
    exists|i: int| 0 <= i < s.len() && (#[trigger] s[i]).0 == key
}

/// The word that an access carries: the low 32 bits of its value.
pub open spec fn word_of(a: MemAccess) -> u32 {
    crate::engine::low_word(a.value)
}

/// The word that the four bytes `c` spell, most significant first.
pub open spec fn chunk_word(c: Seq<u8>) -> u32 {
    (c[0] * 0x100_0000 + c[1] * 0x1_0000 + c[2] * 0x100 + c[3]) as u32
}

/// The entry of the trie for the memory word `value` at `addr`.
pub open spec fn entry_of_chunk(addr: u64, value: Seq<u8>) -> Entry {
    (trie_key_spec(addr), chunk_word(value))
}

/// `e` lists the words of the memory `m` as trie entries in order of
/// address.
pub open spec fn lists_memory(m: MemoryState, e: Seq<Entry>) -> bool {
    &&& sorted_keys(e)
    &&& e.len() == m@.dom().len()
    &&& forall|i: int|
        0 <= i < e.len() ==> m@.contains_key((4 * (#[trigger] e[i]).0) as u64) && e[i].1
            == chunk_word(m@[(4 * e[i].0) as u64])
    &&& forall|a: u64|
        m@.contains_key(a) ==> a <= u32::MAX && exists|i: int|
            0 <= i < e.len() && #[trigger] e[i] == entry_of_chunk(a, m@[a])
}

/// The words of the memory `mem` as trie entries, in order of address.
/// Memory beyond the 32-bit space has no key and is refused.
pub fn state_entries(mem: &MemoryState) -> (r: Result<Vec<Entry>, StepProofError>)
    requires
        mem.wf(),
    ensures
        match r {
            Ok(e) => lists_memory(*mem, e@),
            Err(err) => err == StepProofError::AddressRange && exists|a: u64|
                #[trigger] mem@.contains_key(a) && a > u32::MAX,
        },
{
    let chunks = mem.entries();
    let mut out: Vec<Entry> = Vec::new();
    let n = chunks.len();
    let mut i: usize = 0;
    while i < n
        invariant
            n == chunks@.len(),
            0 <= i <= n,
            mem.wf(),
            out@.len() == i,
            chunks@.len() == mem@.dom().len(),
            forall|j: int|
                0 <= j < chunks@.len() ==> mem@.contains_key(#[trigger] chunks@[j].0)
                    && mem@[chunks@[j].0] == chunks@[j].1@,
            forall|a: int, b: int|
                0 <= a < b < chunks@.len() ==> #[trigger] chunks@[a].0 < #[trigger] chunks@[b].0,
            forall|j: int|
                0 <= j < i ==> chunks@[j].0 <= u32::MAX && #[trigger] out@[j] == entry_of_chunk(
                    chunks@[j].0,
                    chunks@[j].1@,
                ),
        decreases n - i,
    {
        let (addr, c) = chunks[i];
        if addr > u32::MAX as u64 {
            assert(mem@.contains_key(chunks@[i as int].0));
            return Err(StepProofError::AddressRange);
        }
        assert(mem@.contains_key(chunks@[i as int].0));
        let word: u32 = (c[0] as u32) * 0x100_0000 + (c[1] as u32) * 0x1_0000 + (c[2] as u32)
            * 0x100 + (c[3] as u32);
        out.push((trie_key(addr), word));
        i += 1;
    }
    proof {
        assert forall|a: int, b: int| 0 <= a < b < out@.len() implies (#[trigger] out@[a]).0 < (
        #[trigger] out@[b]).0 by {
            assert(mem@.contains_key(chunks@[a].0));
            assert(mem@.contains_key(chunks@[b].0));
            assert(chunks@[a].0 < chunks@[b].0);
            assert(chunks@[a].0 % 4 == 0 && chunks@[b].0 % 4 == 0);
        }
        assert forall|j: int| 0 <= j < out@.len() implies mem@.contains_key(
            (4 * (#[trigger] out@[j]).0) as u64,
        ) && out@[j].1 == chunk_word(mem@[(4 * out@[j].0) as u64]) by {
            assert(mem@.contains_key(chunks@[j].0));
            assert(chunks@[j].0 % 4 == 0);
            assert(4 * out@[j].0 == chunks@[j].0);
        }
        assert forall|a: u64| mem@.contains_key(a) implies a <= u32::MAX && exists|j: int|
            0 <= j < out@.len() && #[trigger] out@[j] == entry_of_chunk(a, mem@[a]) by {
            let j = choose|j: int| 0 <= j < chunks@.len() && #[trigger] chunks@[j].0 == a;
            assert(out@[j] == entry_of_chunk(a, mem@[a]));
        }
    }
    Ok(out)
}

/// Replays the accesses `access` on the trie over `s`, adding to `out` the
/// nodes they visit.
pub fn replay(s: &mut Vec<Entry>, access: &Vec<MemAccess>, out: &mut Vec<Vec<u8>>) -> (r: Result<
    (),
    StepProofError,
>)
    requires
        sorted_keys(old(s)@),
        old(out)@.len() == 0,
    ensures
        match replay_spec(old(s)@, access@) {
            Ok(st) => r.is_ok() && final(s)@ == st.0 && views(final(out)@) == st.1 && sorted_keys(
                final(s)@,
            ),
            Err(e) => r == Err::<(), StepProofError>(e),
        },
{
    let n = access.len();
    let mut i: usize = 0;
    assert(access@.take(0) =~= Seq::<MemAccess>::empty());
    assert(views(out@) =~= Seq::<Seq<u8>>::empty());
    while i < n
        invariant
            n == access@.len(),
            0 <= i <= n,
            sorted_keys(s@),
            replay_spec(old(s)@, access@.take(i as int)) == Ok::<
                (Seq<Entry>, Seq<Seq<u8>>),
                StepProofError,
            >((s@, views(out@))),
        decreases n - i,
    {
        let a = access[i];
        proof {
            assert(access@.take(i + 1).drop_last() =~= access@.take(i as int));
            assert(access@.take(i + 1).last() == a);
            lemma_replay_err_grows(old(s)@, access@, i + 1);
        }
        if !a.is_word_access() {
            return Err(StepProofError::NotWordAccess(i));
        }
        if a.addr > u32::MAX as u64 {
            return Err(StepProofError::AddressRange);
        }
        let key = trie_key(a.addr);
        let present = lookup(s, key).is_some();
        record_key_path(s, key, out);
        if a.write {
            let word: u32 = (a.value & 0xffff_ffff) as u32;
            upsert(s, key, word);
        } else if !present {
            return Err(StepProofError::MissingRead(i));
        }
        i += 1;
    }
    assert(access@.take(n as int) =~= access@);
    Ok(())
}

/// Once a prefix of the accesses cannot be replayed, neither can the whole
/// list, for the same reason.
pub proof fn lemma_replay_err_grows(s: Seq<Entry>, acc: Seq<MemAccess>, k: int)
    requires
        0 <= k <= acc.len(),
    ensures
        replay_spec(s, acc.take(k)) matches Err(e) ==> replay_spec(s, acc) == Err::<
            (Seq<Entry>, Seq<Seq<u8>>),
            StepProofError,
        >(e),
    decreases acc.len() - k,
{
    if k < acc.len() {
        assert(acc.take(k + 1).drop_last() =~= acc.take(k));
        lemma_replay_err_grows(s, acc, k + 1);
    } else {
        assert(acc.take(k) =~= acc);
    }
}

/// The proof of a step from the trie entries before it: the root over the
/// entries, the root after the accesses have been replayed, and the nodes
/// that the accesses visited, each once, in the order of the visits.
pub fn step_proof_of(
    before: Vec<Entry>,
    access: &Vec<MemAccess>,
    regs_before: Vec<(i32, u64)>,
    regs_after: Vec<(i32, u64)>,
) -> (r: Result<StepProof, StepProofError>)
    requires
        sorted_keys(before@),
    ensures
        match replay_spec(before@, access@) {
            Ok(st) => r matches Ok(p) && p.root_before@ == trie_root_spec(before@)
                && p.root_after@ == trie_root_spec(st.0) && views(p.access_nodes@) == st.1
                && p.regs_before@ == regs_before@ && p.regs_after@ == regs_after@,
            Err(e) => r matches Err(x) && x == e,
        },
{
    let root_before = trie_root(&before);
    let mut cur = before;
    let mut nodes: Vec<Vec<u8>> = Vec::new();
    replay(&mut cur, access, &mut nodes)?;
    let root_after = trie_root(&cur);
    Ok(StepProof { root_before, root_after, access_nodes: nodes, regs_before, regs_after })
}

/// The proof of the step `change`. The root before the step is the root of
/// the trie over the memory words of `change.state_before`. Memory beyond the
/// 32-bit space is refused; otherwise the outcome is that of the replay of
/// the accesses on the entries of the memory.
pub fn generate_step_proof(change: StateChange) -> (r: Result<StepProof, StepProofError>)
    requires
        change.state_before.memories.wf(),
    ensures
        (exists|a: u64| #[trigger] change.state_before.memories@.contains_key(a) && a > u32::MAX)
            ==> r == Err::<StepProof, StepProofError>(StepProofError::AddressRange),
        !(exists|a: u64| #[trigger] change.state_before.memories@.contains_key(a) && a > u32::MAX)
            ==> exists|e: Seq<Entry>| #[trigger]
            lists_memory(change.state_before.memories, e) && outcome(r, e, change.access@),
        r matches Ok(p) ==> exists|e: Seq<Entry>| #[trigger]
            lists_memory(change.state_before.memories, e) && proves(p, e, change.access@),
        r matches Ok(p) ==> p.regs_before@ == change.state_before.regs@ && p.regs_after@
            == change.state_after.regs@,
        r matches Ok(p) ==> forall|i: int|
            0 <= i < change.access@.len() ==> (#[trigger] change.access@[i]).is_word(),
{
    let StateChange { state_before, state_after, step: _, access } = change;
    let entries = match state_entries(&state_before.memories) {
        Ok(e) => e,
        Err(x) => { return Err(x); },
    };
    let ghost e = entries@;
    proof {
        if exists|a: u64| #[trigger] state_before.memories@.contains_key(a) && a > u32::MAX {
            let a = choose|a: u64| #[trigger]
                state_before.memories@.contains_key(a) && a > u32::MAX;
            assert(state_before.memories@.contains_key(a));
        }
    }
    let r = step_proof_of(entries, &access, state_before.regs, state_after.regs);
    proof {
        assert(lists_memory(state_before.memories, e));
        assert(outcome(r, e, access@));
        if r is Ok {
            assert(access@.take(access@.len() as int) =~= access@);
            assert(replay_spec(e, access@) is Ok);
            lemma_replay_ok_words(e, access@, access@.len() as int);
            assert(proves(r.unwrap(), e, access@));
        }
    }
    r
}

/// The result `r` is that of the replay of `acc` on the entries `e`: the
/// proof of the step, or the reason why the replay fails.
pub open spec fn outcome(r: Result<StepProof, StepProofError>, e: Seq<Entry>, acc: Seq<MemAccess>) -> bool {
    match replay_spec(e, acc) {
        Ok(st) => r matches Ok(p) && proves(p, e, acc),
        Err(x) => r matches Err(y) && y == x,
    }
}

/// Adding items keeps what was there, in its place.
pub proof fn lemma_add_unique_keeps(acc: Seq<Seq<u8>>, items: Seq<Seq<u8>>)
    ensures
        add_unique(acc, items).len() >= acc.len(),
        forall|i: int| 0 <= i < acc.len() ==> add_unique(acc, items)[i] == acc[i],
    decreases items.len(),
{
    if items.len() > 0 {
        lemma_add_unique_keeps(acc, items.drop_last());
    }
}

/// Added to an empty list, the first of some items comes first.
pub proof fn lemma_add_unique_first(items: Seq<Seq<u8>>)
    requires
        items.len() > 0,
    ensures
        add_unique(Seq::empty(), items).len() > 0,
        add_unique(Seq::empty(), items)[0] == items[0],
    decreases items.len(),
{
    let none = Seq::<Seq<u8>>::empty();
    if items.len() == 1 {
        assert(items.drop_last() =~= none);
        assert(add_unique(none, none) == none);
        assert(!none.contains(items.last()));
    } else {
        lemma_add_unique_first(items.drop_last());
        assert(items.drop_last()[0] == items[0]);
        lemma_add_unique_keeps(add_unique(none, items.drop_last()), seq![items.last()]);
    }
}

/// The witness of a replay that visits anything begins with the top node of
/// the trie before the step: the node whose digest is the root before.
pub proof fn lemma_witness_begins_at_root(e: Seq<Entry>, acc: Seq<MemAccess>)
    requires
        e.len() > 0,
        acc.len() > 0,
        replay_spec(e, acc) is Ok,
    ensures
        replay_spec(e, acc).unwrap().1.len() > 0,
        crate::trie::keccak256_spec(replay_spec(e, acc).unwrap().1[0]) == trie_root_spec(e),
    decreases acc.len(),
{
    let prev = replay_spec(e, acc.drop_last());
    let a = acc.last();
    let key = trie_key_spec(a.addr);
    if acc.len() == 1 {
        assert(acc.drop_last() =~= Seq::<MemAccess>::empty());
        let st = prev.unwrap();
        assert(st.0 == e);
        let path = key_path_spec(e, key);
        assert(path[0] == node_spec(e, 0, e.len() as int, 0));
        lemma_add_unique_first(path);
    } else {
        lemma_witness_begins_at_root(e, acc.drop_last());
        let st = prev.unwrap();
        lemma_add_unique_keeps(st.1, key_path_spec(st.0, key));
    }
}

/// A step that only reads leaves the trie, and so its root, as it was.
pub proof fn lemma_reads_keep_the_root(e: Seq<Entry>, acc: Seq<MemAccess>)
    requires
        replay_spec(e, acc) is Ok,
        forall|i: int| 0 <= i < acc.len() ==> !(#[trigger] acc[i]).write,
    ensures
        replay_spec(e, acc).unwrap().0 == e,
        trie_root_spec(replay_spec(e, acc).unwrap().0) == trie_root_spec(e),
    decreases acc.len(),
{
    if acc.len() > 0 {
        let d = acc.drop_last();
        assert forall|i: int| 0 <= i < d.len() implies !(#[trigger] d[i]).write by {
            assert(d[i] == acc[i]);
        }
        lemma_reads_keep_the_root(e, d);
        assert(!acc[acc.len() - 1].write);
    }
}

/// `p` holds the root over `e`, the root after the replay of `acc`, and the
/// nodes that the replay visited.
pub open spec fn proves(p: StepProof, e: Seq<Entry>, acc: Seq<MemAccess>) -> bool {
    match replay_spec(e, acc) {
        Ok(st) => p.root_before@ == trie_root_spec(e) && p.root_after@ == trie_root_spec(st.0)
            && views(p.access_nodes@) == st.1,
        Err(_) => false,
    }
}

/// A replay that succeeds has seen only aligned accesses to one word.
pub proof fn lemma_replay_ok_words(s: Seq<Entry>, acc: Seq<MemAccess>, k: int)
    requires
        0 <= k <= acc.len(),
        replay_spec(s, acc.take(k)) is Ok,
    ensures
        forall|i: int| 0 <= i < k ==> (#[trigger] acc[i]).is_word(),
    decreases k,
{
    if k > 0 {
        assert(acc.take(k).drop_last() =~= acc.take(k - 1));
        assert(acc.take(k).last() == acc[k - 1]);
        lemma_replay_ok_words(s, acc, k - 1);
    }
}

/// The registers of a proof as one RLP list: each register as the eight
/// big-endian bytes of its identifier, in the high half, and the low 32 bits
/// of its value.
pub open spec fn regs_payload_spec(regs: Seq<(i32, u64)>) -> Seq<u8>
    decreases regs.len(),
{
    if regs.len() == 0 {
        Seq::empty()
    } else {
        regs_payload_spec(regs.drop_last()) + rlp_bytes_spec(
            be_bytes(reg_word_spec(regs.last().0, regs.last().1), 8),
        )
    }
}

/// The identifier of a register in the high half and the low 32 bits of its
/// value in the low half.
pub open spec fn reg_word_spec(id: i32, value: u64) -> u64 {
    ((id as int % 0x1_0000_0000) * 0x1_0000_0000 + value % 0x1_0000_0000) as u64
}

/// The registers of a proof as one RLP list.
pub fn encode_regs(regs: &Vec<(i32, u64)>) -> (r: Vec<u8>)
    ensures
        r@ == rlp_list_spec(regs_payload_spec(regs@)),
{
    let mut payload: Vec<u8> = Vec::new();
    let n = regs.len();
    let mut i: usize = 0;
    assert(regs@.take(0) =~= Seq::<(i32, u64)>::empty());
    while i < n
        invariant
            n == regs@.len(),
            0 <= i <= n,
            payload@ == regs_payload_spec(regs@.take(i as int)),
        decreases n - i,
    {
        let (id, value) = regs[i];
        let hi: u64 = if id >= 0 {
            id as u64
        } else {
            (id as i64 + 0x1_0000_0000) as u64
        };
        let word: u64 = hi * 0x1_0000_0000 + value % 0x1_0000_0000;
        let mut b: Vec<u8> = Vec::new();
        crate::os::linux::syscall::push_be(&mut b, word, 8);
        assert(b@ =~= be_bytes(word, 8));
        let mut item = rlp_bytes(&b);
        payload.append(&mut item);
        proof {
            assert(regs@.take(i + 1).drop_last() =~= regs@.take(i as int));
            assert(regs@.take(i + 1).last() == regs@[i as int]);
        }
        i += 1;
    }
    assert(regs@.take(n as int) =~= regs@);
    rlp_list(&payload)
}

/// The visited nodes of a proof, each as an RLP byte string, one behind the
/// other.
pub open spec fn nodes_payload_spec(nodes: Seq<Seq<u8>>) -> Seq<u8>
    decreases nodes.len(),
{
    if nodes.len() == 0 {
        Seq::empty()
    } else {
        nodes_payload_spec(nodes.drop_last()) + rlp_bytes_spec(nodes.last())
    }
}

/// The visited nodes of a proof as one RLP list of byte strings.
pub fn encode_nodes(nodes: &Vec<Vec<u8>>) -> (r: Vec<u8>)
    ensures
        r@ == rlp_list_spec(nodes_payload_spec(views(nodes@))),
{
    let mut payload: Vec<u8> = Vec::new();
    let n = nodes.len();
    let mut i: usize = 0;
    assert(views(nodes@).take(0) =~= Seq::<Seq<u8>>::empty());
    while i < n
        invariant
            n == nodes@.len(),
            0 <= i <= n,
            payload@ == nodes_payload_spec(views(nodes@).take(i as int)),
        decreases n - i,
    {
        let mut item = rlp_bytes(&nodes[i]);
        payload.append(&mut item);
        proof {
            assert(views(nodes@).take(i + 1).drop_last() =~= views(nodes@).take(i as int));
            assert(views(nodes@).take(i + 1).last() == nodes@[i as int]@);
        }
        i += 1;
    }
    assert(views(nodes@).take(n as int) =~= views(nodes@));
    rlp_list(&payload)
}

} // verus!
