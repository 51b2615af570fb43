//! Value-change block internals: the position table that maps each variable
//! to its byte slice of the block's waves region.
//!
//! The table holds one code per variable, read as an unsigned varint whose
//! lowest bit selects the sub-encoding: runs of variables with no changes,
//! delta-encoded byte offsets, and dynamic aliases to earlier variables.

use crate::bytes::{be_u64_spec, read_be_u64, read_u8};
use crate::error::FstError;
use crate::valvec::ValVec;
use crate::varint::{
    lemma_varint_parse_at_range, lemma_varint_svarint_agree, read_svarint, read_varint,
    svarint_parse_at, varint_parse_at,
};
use vstd::prelude::*;

verus! {

/// A variable's byte range within a block's waves region, half-open.
/// `start == end` means the variable has no changes in the block.  During
/// resolution `end == u64::MAX` marks a slice whose end is not yet known.
#[derive(Debug, Copy, Clone, PartialEq, Eq, Structural)]
pub struct WaveSlice {
    pub start: u64,
    pub end: u64,
}

/// One decoded position-table code.
#[derive(Debug, Copy, Clone, PartialEq, Eq, Structural)]
pub enum PosEntry {
    /// A run of variables with no changes in this block.
    ZeroRun(u64),
    /// A positive delta from the previous non-alias offset.
    Offset(u64),
    /// The same changes as an earlier variable.
    Alias(u64),
    /// The same changes as the variable of the previous `Alias`.
    RepeatAlias,
}

/// Resolver state: the slices built so far (one per variable already
/// covered), the running offset cursor, the target of the last dynamic
/// alias, and the index of the first slice whose end may still be pending.
pub struct PosState {
    pub slices: Seq<(u64, u64)>,
    pub prev_off: u64,
    pub prev_alias: Option<u64>,
    pub unresolved_from: int,
}

/// The initial resolver state.
pub open spec fn pos_init() -> PosState {
    PosState { slices: Seq::empty(), prev_off: 0, prev_alias: None, unresolved_from: 0 }
}

/// Close a pending slice at `end`; leave a settled one alone.
pub open spec fn pos_slice_fix(sl: (u64, u64), end: u64) -> (u64, u64) {
    if sl.1 == u64::MAX {
        (sl.0, end)
    } else {
        sl
    }
}

/// Apply one position-table code to the resolver state.  `None` is a
/// malformed table: an offset running past the waves region of length
/// `waves_len`, an alias pointing at the current or a later variable, or a
/// repeat with no alias before it.
pub open spec fn pos_step(st: PosState, e: PosEntry, waves_len: u64) -> Option<PosState> {
    match e {
        PosEntry::ZeroRun(k) => Some(
            PosState {
                slices: st.slices + Seq::new(k as nat, |q: int| (0u64, 0u64)),
                prev_off: st.prev_off,
                prev_alias: st.prev_alias,
                unresolved_from: st.unresolved_from,
            },
        ),
        PosEntry::Offset(d) => {
            if d == 0 || st.prev_off + d > u64::MAX {
                None
            } else {
                let cur = (st.prev_off + d) as u64;
                if cur - 1 > waves_len {
                    None
                } else {
                    let fixed = Seq::new(
                        st.slices.len(),
                        |q: int|
                            if q >= st.unresolved_from {
                                pos_slice_fix(st.slices[q], (cur - 1) as u64)
                            } else {
                                st.slices[q]
                            },
                    );
                    Some(
                        PosState {
                            slices: fixed.push(((cur - 1) as u64, u64::MAX)),
                            prev_off: cur,
                            prev_alias: st.prev_alias,
                            unresolved_from: st.slices.len() as int,
                        },
                    )
                }
            }
        },
        PosEntry::Alias(t) => {
            if t >= st.slices.len() {
                None
            } else {
                Some(
                    PosState {
                        slices: st.slices.push(st.slices[t as int]),
                        prev_off: st.prev_off,
                        prev_alias: Some(t),
                        unresolved_from: st.unresolved_from,
                    },
                )
            }
        },
        PosEntry::RepeatAlias => match st.prev_alias {
            None => None,
            Some(t) => {
                if t >= st.slices.len() {
                    None
                } else {
                    Some(
                        PosState {
                            slices: st.slices.push(st.slices[t as int]),
                            prev_off: st.prev_off,
                            prev_alias: st.prev_alias,
                            unresolved_from: st.unresolved_from,
                        },
                    )
                }
            },
        },
    }
}

/// The code held by a position-table varint whose value is `v`, read
/// together with the signed reading `sv` of the same bytes.
pub open spec fn pos_entry_of(v: u64, sv: i64) -> PosEntry {
    if v & 1 == 0 {
        PosEntry::ZeroRun(v >> 1)
    } else {
        let x = sv >> 1;
        if x > 0 {
            PosEntry::Offset(x as u64)
        } else if x < 0 {
            PosEntry::Alias((-(x + 1)) as u64)
        } else {
            PosEntry::RepeatAlias
        }
    }
}

/// How many variables a code covers.
pub open spec fn pos_entry_cover(e: PosEntry) -> nat {
    match e {
        PosEntry::ZeroRun(k) => k as nat,
        _ => 1,
    }
}

/// Run the position-table parse and resolver over the bytes of `data`
/// starting at `i`, with `vars_left` variables still to cover.  `None` is a
/// malformed or truncated table.
pub open spec fn pos_table_run(
    data: Seq<u8>,
    i: int,
    vars_left: nat,
    st: PosState,
    waves_len: u64,
) -> Option<PosState>
    decreases vars_left, data.len() - i,
        via pos_table_run_decreases
{
    if vars_left == 0 {
        Some(st)
    } else {
        match varint_parse_at(data, i, 0, 0) {
            None => None,
            Some((v, end)) => {
                let e = pos_entry_of(v, svarint_parse_at(data, i, 0, 0).unwrap().0);
                if pos_entry_cover(e) > vars_left {
                    None
                } else {
                    match pos_step(st, e, waves_len) {
                        None => None,
                        Some(st2) => pos_table_run(
                            data,
                            end,
                            (vars_left - pos_entry_cover(e)) as nat,
                            st2,
                            waves_len,
                        ),
                    }
                }
            },
        }
    }
}

#[via_fn]
proof fn pos_table_run_decreases(data: Seq<u8>, i: int, vars_left: nat, st: PosState, waves_len: u64) {
    if vars_left != 0 && varint_parse_at(data, i, 0, 0) is Some {
        lemma_varint_parse_at_range(data, i, 0, 0);
    }
}

/// The error kind of a failing position-table decode, walking the same
/// path as `pos_table_run`: a varint that runs out of input is `Io`; a
/// varint overflow, a run covering more variables than remain, and every
/// malformed code (offset past the region, forward alias, repeat with no
/// alias) are `Malformed`.  Meaningful only where the run yields `None`.
pub open spec fn pos_table_err(
    data: Seq<u8>,
    i: int,
    vars_left: nat,
    st: PosState,
    waves_len: u64,
) -> FstError
    decreases vars_left, data.len() - i,
        via pos_table_err_decreases
{
    if vars_left == 0 {
        FstError::Malformed
    } else {
        match varint_parse_at(data, i, 0, 0) {
            None => if data.len() >= i + 11 {
                FstError::Malformed
            } else {
                FstError::Io
            },
            Some((v, end)) => {
                let e = pos_entry_of(v, svarint_parse_at(data, i, 0, 0).unwrap().0);
                if pos_entry_cover(e) > vars_left {
                    FstError::Malformed
                } else {
                    match pos_step(st, e, waves_len) {
                        None => FstError::Malformed,
                        Some(st2) => pos_table_err(
                            data,
                            end,
                            (vars_left - pos_entry_cover(e)) as nat,
                            st2,
                            waves_len,
                        ),
                    }
                }
            },
        }
    }
}

#[via_fn]
proof fn pos_table_err_decreases(
    data: Seq<u8>,
    i: int,
    vars_left: nat,
    st: PosState,
    waves_len: u64,
) {
    if vars_left != 0 && varint_parse_at(data, i, 0, 0) is Some {
        lemma_varint_parse_at_range(data, i, 0, 0);
    }
}

/// Close every still-pending slice at the end of the waves region.
pub open spec fn pos_finalize(st: PosState, waves_len: u64) -> Seq<(u64, u64)> {
    Seq::new(
        st.slices.len(),
        |q: int|
            if q >= st.unresolved_from {
                pos_slice_fix(st.slices[q], waves_len)
            } else {
                st.slices[q]
            },
    )
}

/// The fully resolved position table: one `(start, end)` byte range per
/// variable, measured from one byte before the waves region's data.
pub open spec fn pos_table(data: Seq<u8>, i: int, num_vars: nat, waves_len: u64) -> Option<
    Seq<(u64, u64)>,
> {
    match pos_table_run(data, i, num_vars, pos_init(), waves_len) {
        None => None,
        Some(st) => Some(pos_finalize(st, waves_len)),
    }
}

/// The ranges a slice vector holds.
pub open spec fn slices_view(v: Seq<WaveSlice>) -> Seq<(u64, u64)> {
    Seq::new(v.len(), |q: int| (v[q].start, v[q].end))
}

/// Decode the position table for `num_vars` variables at the cursor and
/// resolve it into one byte range per variable.  Succeeds exactly when the
/// resolved table (`pos_table`) exists; the cursor is left after the last
/// code consumed.
pub fn read_wave_slices(data: &[u8], pos: &mut usize, num_vars: u64, waves_len: u64) -> (r: Result<
    Vec<WaveSlice>,
    FstError,
>)
    ensures
        match r {
            Ok(slices) => {
                &&& pos_table(data@, *old(pos) as int, num_vars as nat, waves_len) is Some
                &&& slices_view(slices@) == pos_table(
                    data@,
                    *old(pos) as int,
                    num_vars as nat,
                    waves_len,
                ).unwrap()
                &&& slices@.len() == num_vars
            },
            Err(e) => {
                &&& pos_table(data@, *old(pos) as int, num_vars as nat, waves_len) is None
                &&& e == pos_table_err(
                    data@,
                    *old(pos) as int,
                    num_vars as nat,
                    pos_init(),
                    waves_len,
                )
                &&& (e == FstError::Io || e == FstError::Malformed)
            },
        },
{
    let ghost p0 = *pos as int;
    let ghost target = pos_table_run(data@, p0, num_vars as nat, pos_init(), waves_len);
    let mut slices: Vec<WaveSlice> = Vec::new();
    let mut prev_off: u64 = 0;
    let mut prev_alias: Option<u64> = None;
    let mut unresolved_from: usize = 0;
    let mut vars_left: u64 = num_vars;
    proof {
        assert(slices_view(slices@) =~= Seq::<(u64, u64)>::empty());
    }
    while vars_left > 0
        invariant
            p0 == *old(pos),
            target == pos_table_run(data@, p0, num_vars as nat, pos_init(), waves_len),
            target == pos_table_run(
                data@,
                *pos as int,
                vars_left as nat,
                (PosState {
                    slices: slices_view(slices@),
                    prev_off: prev_off,
                    prev_alias: prev_alias,
                    unresolved_from: unresolved_from as int,
                }),
                waves_len,
            ),
            pos_table_run(
                data@,
                *pos as int,
                vars_left as nat,
                (PosState {
                    slices: slices_view(slices@),
                    prev_off: prev_off,
                    prev_alias: prev_alias,
                    unresolved_from: unresolved_from as int,
                }),
                waves_len,
            ) is None ==> pos_table_err(
                data@,
                *pos as int,
                vars_left as nat,
                (PosState {
                    slices: slices_view(slices@),
                    prev_off: prev_off,
                    prev_alias: prev_alias,
                    unresolved_from: unresolved_from as int,
                }),
                waves_len,
            ) == pos_table_err(data@, p0, num_vars as nat, pos_init(), waves_len),
            slices@.len() == num_vars - vars_left,
            unresolved_from <= slices@.len(),
        decreases vars_left, data@.len() - *pos,
    {
        let ghost st = PosState {
            slices: slices_view(slices@),
            prev_off: prev_off,
            prev_alias: prev_alias,
            unresolved_from: unresolved_from as int,
        };
        let entry_start = *pos;
        let v = match read_varint(data, pos) {
            Ok(v) => v,
            Err(e) => { return Err(e) },
        };
        if v & 1 == 0 {
            let k = v >> 1;
            proof {
                assert(pos_entry_of(v, svarint_parse_at(data@, entry_start as int, 0, 0).unwrap().0)
                    == PosEntry::ZeroRun(k));
            }
            if k > vars_left {
                return Err(FstError::Malformed);
            }
            let ghost st2 = pos_step(st, PosEntry::ZeroRun(k), waves_len).unwrap();
            let mut pushed: u64 = 0;
            while pushed < k
                invariant
                    pushed <= k,
                    slices@.len() == st.slices.len() + pushed,
                    forall|idx: int|
                        0 <= idx < st.slices.len() ==> #[trigger] slices@[idx] == (WaveSlice {
                            start: st.slices[idx].0,
                            end: st.slices[idx].1,
                        }),
                    forall|idx: int|
                        st.slices.len() <= idx < slices@.len() ==> #[trigger] slices@[idx]
                            == (WaveSlice { start: 0u64, end: 0u64 }),
                decreases k - pushed,
            {
                slices.push(WaveSlice { start: 0, end: 0 });
                pushed = pushed + 1;
            }
            proof {
                assert(slices_view(slices@) =~= st2.slices);
            }
            vars_left = vars_left - k;
        } else {
            *pos = entry_start;
            let sv = match read_svarint(data, pos) {
                Ok(sv) => sv,
                Err(e) => {
                    proof {
                        lemma_varint_svarint_agree(data@, entry_start as int, 0, 0, 0);
                    }
                    return Err(e)
                },
            };
            proof {
                lemma_varint_svarint_agree(data@, entry_start as int, 0, 0, 0);
            }
            let x: i64 = sv >> 1;
            proof {
                assert((sv >> 1) >= -0x4000000000000000 && (sv >> 1) < 0x4000000000000000)
                    by (bit_vector);
            }
            if x > 0 {
                let d = x as u64;
                proof {
                    assert(pos_entry_of(
                        v,
                        svarint_parse_at(data@, entry_start as int, 0, 0).unwrap().0,
                    ) == PosEntry::Offset(d));
                }
                let cur = match prev_off.checked_add(d) {
                    Some(c) => c,
                    None => { return Err(FstError::Malformed) },
                };
                if cur - 1 > waves_len {
                    return Err(FstError::Malformed);
                }
                let ghost st2 = pos_step(st, PosEntry::Offset(d), waves_len).unwrap();
                let stop = slices.len();
                let mut q = unresolved_from;
                while q < stop
                    invariant
                        unresolved_from <= q <= stop,
                        stop == slices@.len(),
                        slices@.len() == st.slices.len(),
                        unresolved_from == st.unresolved_from,
                        1 <= cur,
                        forall|idx: int|
                            unresolved_from <= idx < q ==> slices@[idx] == (WaveSlice {
                                start: pos_slice_fix(st.slices[idx], (cur - 1) as u64).0,
                                end: pos_slice_fix(st.slices[idx], (cur - 1) as u64).1,
                            }),
                        forall|idx: int|
                            (0 <= idx < unresolved_from || q <= idx < slices@.len())
                                ==> #[trigger] slices@[idx] == (WaveSlice {
                                start: st.slices[idx].0,
                                end: st.slices[idx].1,
                            }),
                    decreases stop - q,
                {
                    let sq = slices[q];
                    if sq.end == u64::MAX {
                        slices.set(q, WaveSlice { start: sq.start, end: cur - 1 });
                    }
                    q = q + 1;
                }
                let idx_new = slices.len();
                slices.push(WaveSlice { start: cur - 1, end: u64::MAX });
                unresolved_from = idx_new;
                prev_off = cur;
                proof {
                    assert(slices_view(slices@) =~= st2.slices);
                }
                vars_left = vars_left - 1;
            } else if x < 0 {
                let t = (-(x + 1)) as u64;
                proof {
                    assert(pos_entry_of(
                        v,
                        svarint_parse_at(data@, entry_start as int, 0, 0).unwrap().0,
                    ) == PosEntry::Alias(t));
                }
                if t >= slices.len() as u64 {
                    return Err(FstError::Malformed);
                }
                let ghost st2 = pos_step(st, PosEntry::Alias(t), waves_len).unwrap();
                let copied = slices[t as usize];
                slices.push(copied);
                prev_alias = Some(t);
                proof {
                    assert(slices_view(slices@) =~= st2.slices);
                }
                vars_left = vars_left - 1;
            } else {
                proof {
                    assert(pos_entry_of(
                        v,
                        svarint_parse_at(data@, entry_start as int, 0, 0).unwrap().0,
                    ) == PosEntry::RepeatAlias);
                }
                let t = match prev_alias {
                    Some(t) => t,
                    None => { return Err(FstError::Malformed) },
                };
                if t >= slices.len() as u64 {
                    return Err(FstError::Malformed);
                }
                let ghost st2 = pos_step(st, PosEntry::RepeatAlias, waves_len).unwrap();
                let copied = slices[t as usize];
                slices.push(copied);
                proof {
                    assert(slices_view(slices@) =~= st2.slices);
                }
                vars_left = vars_left - 1;
            }
        }
    }
    let ghost final_st = PosState {
        slices: slices_view(slices@),
        prev_off: prev_off,
        prev_alias: prev_alias,
        unresolved_from: unresolved_from as int,
    };
    proof {
        assert(target == Some(final_st));
    }
    let stop = slices.len();
    let mut q = unresolved_from;
    while q < stop
        invariant
            unresolved_from <= q <= stop,
            stop == slices@.len(),
            slices@.len() == final_st.slices.len(),
            unresolved_from == final_st.unresolved_from,
            forall|idx: int|
                unresolved_from <= idx < q ==> slices@[idx] == (WaveSlice {
                    start: pos_slice_fix(final_st.slices[idx], waves_len).0,
                    end: pos_slice_fix(final_st.slices[idx], waves_len).1,
                }),
            forall|idx: int|
                (0 <= idx < unresolved_from || q <= idx < slices@.len()) ==> #[trigger] slices@[idx]
                    == (WaveSlice { start: final_st.slices[idx].0, end: final_st.slices[idx].1 }),
        decreases stop - q,
    {
        let sq = slices[q];
        if sq.end == u64::MAX {
            slices.set(q, WaveSlice { start: sq.start, end: waves_len });
        }
        q = q + 1;
    }
    proof {
        assert(slices_view(slices@) =~= pos_finalize(final_st, waves_len));
    }
    Ok(slices)
}

/// Parse `count` time deltas from `s` starting at `i`, accumulating onto
/// `t`: the result holds absolute times.  `None` when a varint fails or an
/// accumulated time overflows 64 bits.
pub open spec fn times_at(s: Seq<u8>, i: int, count: nat, t: u64) -> Option<Seq<u64>>
    decreases count,
{
    if count == 0 {
        Some(Seq::empty())
    } else {
        match varint_parse_at(s, i, 0, 0) {
            None => None,
            Some((d, end)) => {
                if t + d > u64::MAX {
                    None
                } else {
                    match times_at(s, end, (count - 1) as nat, (t + d) as u64) {
                        None => None,
                        Some(rest) => Some(seq![(t + d) as u64] + rest),
                    }
                }
            },
        }
    }
}

/// Every decoded time is at least the accumulator it grew from, and the
/// sequence is non-decreasing.
pub proof fn lemma_times_at_monotonic(s: Seq<u8>, i: int, count: nat, t: u64)
    requires
        times_at(s, i, count, t) is Some,
    ensures
        forall|j: int|
            0 <= j < times_at(s, i, count, t).unwrap().len() ==> t <= #[trigger] times_at(
                s,
                i,
                count,
                t,
            ).unwrap()[j],
        forall|j: int|
            1 <= j < times_at(s, i, count, t).unwrap().len() ==> times_at(
                s,
                i,
                count,
                t,
            ).unwrap()[j - 1] <= #[trigger] times_at(s, i, count, t).unwrap()[j],
    decreases count,
{
    if count != 0 {
        let (d, end) = varint_parse_at(s, i, 0, 0).unwrap();
        let t2 = (t + d) as u64;
        lemma_times_at_monotonic(s, end, (count - 1) as nat, t2);
        let ts = times_at(s, i, count, t).unwrap();
        let rest = times_at(s, end, (count - 1) as nat, t2).unwrap();
        assert forall|j: int| 0 <= j < ts.len() implies t <= #[trigger] ts[j] by {
            if j > 0 {
                assert(ts[j] == rest[j - 1]);
            }
        }
        assert forall|j: int| 1 <= j < ts.len() implies ts[j - 1] <= #[trigger] ts[j] by {
            assert(ts[j] == rest[j - 1]);
            if j > 1 {
                assert(ts[j - 1] == rest[j - 2]);
            }
        }
    }
}

/// The times vector a value-change block's time region decodes to: `count`
/// varint deltas accumulated from 0, zlib-inflated first when the region's
/// compressed and uncompressed lengths differ.
pub open spec fn change_times(data: Seq<u8>, p: int, clen: u64, ulen: u64, count: u64) -> Option<
    Seq<u64>,
> {
    if clen == ulen {
        times_at(data, p, count as nat, 0)
    } else {
        if p + clen <= data.len() && ulen <= usize::MAX && crate::compress::zlib_inflate(
            data.subrange(p, p + clen),
            ulen as nat,
        ) is Some {
            times_at(
                crate::compress::zlib_inflate(data.subrange(p, p + clen), ulen as nat).unwrap(),
                0,
                count as nat,
                0,
            )
        } else {
            None
        }
    }
}

/// Parse `count` accumulated varint times from `stream` at the cursor.
fn parse_times(stream: &[u8], spos: &mut usize, count: u64) -> (r: Result<Vec<u64>, FstError>)
    ensures
        match r {
            Ok(times) => {
                &&& times_at(stream@, *old(spos) as int, count as nat, 0) == Some(times@)
                &&& times@.len() == count
            },
            Err(e) => times_at(stream@, *old(spos) as int, count as nat, 0) is None && (e
                == FstError::Io || e == FstError::Malformed),
        },
{
    let ghost p0 = *spos as int;
    let ghost target = times_at(stream@, p0, count as nat, 0);
    let mut times: Vec<u64> = Vec::new();
    let mut t: u64 = 0;
    let mut i: u64 = 0;
    while i < count
        invariant
            p0 == *old(spos),
            0 <= i <= count,
            times@.len() == i,
            target == times_at(stream@, p0, count as nat, 0),
            target == (match times_at(stream@, *spos as int, (count - i) as nat, t) {
                None => None::<Seq<u64>>,
                Some(rest) => Some(times@ + rest),
            }),
        decreases count - i,
    {
        let ghost old_spos = *spos;
        let d = match read_varint(stream, spos) {
            Ok(d) => d,
            Err(e) => { return Err(e) },
        };
        let t2 = match t.checked_add(d) {
            Some(t2) => t2,
            None => { return Err(FstError::Malformed) },
        };
        t = t2;
        times.push(t2);
        proof {
            if times_at(stream@, *spos as int, (count - i - 1) as nat, t2) is Some {
                let rest2 = times_at(stream@, *spos as int, (count - i - 1) as nat, t2).unwrap();
                assert((times@.drop_last() + (seq![t2] + rest2)) =~= (times@ + rest2));
            }
        }
        i = i + 1;
    }
    proof {
        assert(times_at(stream@, *spos as int, 0, t) == Some(Seq::<u64>::empty()));
        assert(times@ + Seq::<u64>::empty() =~= times@);
    }
    Ok(times)
}

/// Decode a value-change block's time table at the cursor: `count` deltas,
/// zlib-compressed exactly when `compressed_length != uncompressed_length`,
/// accumulated into absolute times.  The result is non-decreasing.
pub fn read_change_times(
    data: &[u8],
    pos: &mut usize,
    compressed_length: u64,
    uncompressed_length: u64,
    count: u64,
) -> (r: Result<Vec<u64>, FstError>)
    ensures
        match r {
            Ok(times) => {
                &&& change_times(
                    data@,
                    *old(pos) as int,
                    compressed_length,
                    uncompressed_length,
                    count,
                ) == Some(times@)
                &&& times@.len() == count
                &&& (forall|j: int| 1 <= j < times@.len() ==> times@[j - 1] <= #[trigger] times@[j])
            },
            Err(e) => change_times(
                data@,
                *old(pos) as int,
                compressed_length,
                uncompressed_length,
                count,
            ) is None && (e == FstError::Io || e == FstError::Malformed || e
                == FstError::Decompress),
        },
{
    let ghost p0 = *pos as int;
    if compressed_length == uncompressed_length {
        match parse_times(data, pos, count) {
            Ok(times) => {
                proof {
                    lemma_times_at_monotonic(data@, p0, count as nat, 0);
                    let ts = times_at(data@, p0, count as nat, 0).unwrap();
                    assert(ts == times@);
                    assert forall|j: int| 1 <= j < times@.len() implies times@[j - 1]
                        <= #[trigger] times@[j] by {
                        assert(ts[j - 1] <= ts[j]);
                    }
                }
                Ok(times)
            },
            Err(e) => Err(e),
        }
    } else {
        if compressed_length > data.len() as u64 || *pos as u64 > data.len() as u64
            - compressed_length {
            return Err(FstError::Io);
        }
        if uncompressed_length > usize::MAX as u64 {
            return Err(FstError::Malformed);
        }
        let payload = match crate::bytes::read_bytes(data, pos, compressed_length as usize) {
            Ok(v) => v,
            Err(e) => { return Err(e) },
        };
        let stream = match crate::compress::zlib_decompress(
            payload.as_slice(),
            uncompressed_length as usize,
        ) {
            Some(v) => v,
            None => { return Err(FstError::Decompress) },
        };
        let mut spos: usize = 0;
        match parse_times(stream.as_slice(), &mut spos, count) {
            Ok(times) => {
                proof {
                    lemma_times_at_monotonic(stream@, 0, count as nat, 0);
                    let ts = times_at(stream@, 0, count as nat, 0).unwrap();
                    assert(ts == times@);
                    assert forall|j: int| 1 <= j < times@.len() implies times@[j - 1]
                        <= #[trigger] times@[j] by {
                        assert(ts[j - 1] <= ts[j]);
                    }
                }
                Ok(times)
            },
            Err(e) => Err(e),
        }
    }
}

/// Resolver-state sanity: pending slices sit past `unresolved_from` and
/// start one byte before the offset cursor; settled slices lie within the
/// waves region.
pub open spec fn pos_state_wf(st: PosState, waves_len: u64) -> bool {
    &&& 0 <= st.unresolved_from <= st.slices.len()
    &&& (forall|q: int|
        0 <= q < st.slices.len() ==> {
            let sl = #[trigger] st.slices[q];
            if sl.1 == u64::MAX {
                q >= st.unresolved_from && st.prev_off >= 1 && sl.0 == st.prev_off - 1 && sl.0
                    <= waves_len
            } else {
                sl.0 <= sl.1 <= waves_len
            }
        })
}

proof fn lemma_pos_step_wf(st: PosState, e: PosEntry, waves_len: u64)
    requires
        pos_state_wf(st, waves_len),
        pos_step(st, e, waves_len) is Some,
    ensures
        pos_state_wf(pos_step(st, e, waves_len).unwrap(), waves_len),
{
    let st2 = pos_step(st, e, waves_len).unwrap();
    match e {
        PosEntry::ZeroRun(k) => {
            assert forall|q: int| 0 <= q < st2.slices.len() implies {
                let sl = #[trigger] st2.slices[q];
                if sl.1 == u64::MAX {
                    q >= st2.unresolved_from && st2.prev_off >= 1 && sl.0 == st2.prev_off - 1
                        && sl.0 <= waves_len
                } else {
                    sl.0 <= sl.1 <= waves_len
                }
            } by {
                if q < st.slices.len() {
                    assert(st2.slices[q] == st.slices[q]);
                } else {
                    assert(st2.slices[q] == (0u64, 0u64));
                }
            }
        },
        PosEntry::Offset(d) => {
            let cur = (st.prev_off + d) as u64;
            assert forall|q: int| 0 <= q < st2.slices.len() implies {
                let sl = #[trigger] st2.slices[q];
                if sl.1 == u64::MAX {
                    q >= st2.unresolved_from && st2.prev_off >= 1 && sl.0 == st2.prev_off - 1
                        && sl.0 <= waves_len
                } else {
                    sl.0 <= sl.1 <= waves_len
                }
            } by {
                if q < st.slices.len() {
                    assert(st.slices[q].1 == u64::MAX ==> st2.slices[q] == (
                        st.slices[q].0,
                        (cur - 1) as u64,
                    ));
                    assert(st.slices[q].1 != u64::MAX ==> st2.slices[q] == st.slices[q]);
                } else {
                    assert(st2.slices[q] == ((cur - 1) as u64, u64::MAX));
                }
            }
        },
        PosEntry::Alias(t) => {
            assert forall|q: int| 0 <= q < st2.slices.len() implies {
                let sl = #[trigger] st2.slices[q];
                if sl.1 == u64::MAX {
                    q >= st2.unresolved_from && st2.prev_off >= 1 && sl.0 == st2.prev_off - 1
                        && sl.0 <= waves_len
                } else {
                    sl.0 <= sl.1 <= waves_len
                }
            } by {
                if q < st.slices.len() {
                    assert(st2.slices[q] == st.slices[q]);
                } else {
                    assert(st2.slices[q] == st.slices[t as int]);
                }
            }
        },
        PosEntry::RepeatAlias => {
            let t = st.prev_alias.unwrap();
            assert forall|q: int| 0 <= q < st2.slices.len() implies {
                let sl = #[trigger] st2.slices[q];
                if sl.1 == u64::MAX {
                    q >= st2.unresolved_from && st2.prev_off >= 1 && sl.0 == st2.prev_off - 1
                        && sl.0 <= waves_len
                } else {
                    sl.0 <= sl.1 <= waves_len
                }
            } by {
                if q < st.slices.len() {
                    assert(st2.slices[q] == st.slices[q]);
                } else {
                    assert(st2.slices[q] == st.slices[t as int]);
                }
            }
        },
    }
}

proof fn lemma_pos_run_wf(data: Seq<u8>, i: int, vars_left: nat, st: PosState, waves_len: u64)
    requires
        pos_state_wf(st, waves_len),
        pos_table_run(data, i, vars_left, st, waves_len) is Some,
    ensures
        pos_state_wf(pos_table_run(data, i, vars_left, st, waves_len).unwrap(), waves_len),
    decreases vars_left, data.len() - i,
{
    if vars_left != 0 {
        let (v, end) = varint_parse_at(data, i, 0, 0).unwrap();
        let e = pos_entry_of(v, svarint_parse_at(data, i, 0, 0).unwrap().0);
        let st2 = pos_step(st, e, waves_len).unwrap();
        lemma_pos_step_wf(st, e, waves_len);
        lemma_varint_parse_at_range(data, i, 0, 0);
        lemma_pos_run_wf(data, end, (vars_left - pos_entry_cover(e)) as nat, st2, waves_len);
    }
}

/// Position-table invariant: after resolution every slice is well formed
/// and within the waves region, `start <= end <= waves_len`.
pub proof fn lemma_pos_table_bounded(data: Seq<u8>, i: int, num_vars: nat, waves_len: u64)
    requires
        pos_table(data, i, num_vars, waves_len) is Some,
    ensures
        forall|v: int|
            0 <= v < pos_table(data, i, num_vars, waves_len).unwrap().len() ==> (#[trigger] pos_table(
                data,
                i,
                num_vars,
                waves_len,
            ).unwrap()[v]).0 <= pos_table(data, i, num_vars, waves_len).unwrap()[v].1 <= waves_len,
{
    let st = pos_table_run(data, i, num_vars, pos_init(), waves_len).unwrap();
    lemma_pos_run_wf(data, i, num_vars, pos_init(), waves_len);
    let tbl = pos_finalize(st, waves_len);
    assert forall|v: int| 0 <= v < tbl.len() implies (#[trigger] tbl[v]).0 <= tbl[v].1
        <= waves_len by {
        assert(st.slices[v].1 == u64::MAX || st.slices[v].1 != u64::MAX);
    }
}

proof fn lemma_pos_step_preserves(st: PosState, e: PosEntry, waves_len: u64, q: int)
    requires
        pos_step(st, e, waves_len) is Some,
        0 <= q < st.slices.len(),
        st.slices[q].1 != u64::MAX,
    ensures
        pos_step(st, e, waves_len).unwrap().slices[q] == st.slices[q],
{
}

proof fn lemma_pos_run_preserves(
    data: Seq<u8>,
    i: int,
    vars_left: nat,
    st: PosState,
    waves_len: u64,
    q: int,
)
    requires
        pos_table_run(data, i, vars_left, st, waves_len) is Some,
        0 <= q < st.slices.len(),
        st.slices[q].1 != u64::MAX,
    ensures
        ({
            let fin = pos_table_run(data, i, vars_left, st, waves_len).unwrap();
            q < fin.slices.len() && fin.slices[q] == st.slices[q] && pos_finalize(
                fin,
                waves_len,
            )[q] == st.slices[q]
        }),
    decreases vars_left, data.len() - i,
{
    if vars_left != 0 {
        let (v, end) = varint_parse_at(data, i, 0, 0).unwrap();
        let e = pos_entry_of(v, svarint_parse_at(data, i, 0, 0).unwrap().0);
        let st2 = pos_step(st, e, waves_len).unwrap();
        lemma_pos_step_preserves(st, e, waves_len, q);
        lemma_varint_parse_at_range(data, i, 0, 0);
        lemma_pos_run_preserves(
            data,
            end,
            (vars_left - pos_entry_cover(e)) as nat,
            st2,
            waves_len,
            q,
        );
    }
}

/// Position-table invariant: a variable covered by a zero-run code keeps the
/// empty slice in the final table.  `q` is the variable's index; the code at
/// `i` covers the variables `st.slices.len() .. st.slices.len() + k`.
pub proof fn lemma_pos_zero_run_empty(
    data: Seq<u8>,
    i: int,
    vars_left: nat,
    st: PosState,
    waves_len: u64,
    q: int,
)
    requires
        pos_table_run(data, i, vars_left, st, waves_len) is Some,
        vars_left > 0,
        varint_parse_at(data, i, 0, 0) is Some,
        varint_parse_at(data, i, 0, 0).unwrap().0 & 1 == 0,
        st.slices.len() <= q < st.slices.len() + (varint_parse_at(data, i, 0, 0).unwrap().0 >> 1),
    ensures
        ({
            let fin = pos_table_run(data, i, vars_left, st, waves_len).unwrap();
            q < fin.slices.len() && pos_finalize(fin, waves_len)[q] == (0u64, 0u64)
        }),
{
    let (v, end) = varint_parse_at(data, i, 0, 0).unwrap();
    let e = pos_entry_of(v, svarint_parse_at(data, i, 0, 0).unwrap().0);
    let st2 = pos_step(st, e, waves_len).unwrap();
    assert(st2.slices[q] == (0u64, 0u64));
    lemma_varint_parse_at_range(data, i, 0, 0);
    lemma_pos_run_preserves(
        data,
        end,
        (vars_left - pos_entry_cover(e)) as nat,
        st2,
        waves_len,
        q,
    );
}

proof fn lemma_pos_step_equal(st: PosState, e: PosEntry, waves_len: u64, a: int, b: int)
    requires
        pos_state_wf(st, waves_len),
        pos_step(st, e, waves_len) is Some,
        0 <= a < st.slices.len(),
        0 <= b < st.slices.len(),
        st.slices[a] == st.slices[b],
    ensures
        pos_step(st, e, waves_len).unwrap().slices[a] == pos_step(st, e, waves_len).unwrap().slices[b],
{
}

proof fn lemma_pos_run_equal(
    data: Seq<u8>,
    i: int,
    vars_left: nat,
    st: PosState,
    waves_len: u64,
    a: int,
    b: int,
)
    requires
        pos_state_wf(st, waves_len),
        pos_table_run(data, i, vars_left, st, waves_len) is Some,
        0 <= a < st.slices.len(),
        0 <= b < st.slices.len(),
        st.slices[a] == st.slices[b],
    ensures
        ({
            let fin = pos_table_run(data, i, vars_left, st, waves_len).unwrap();
            a < fin.slices.len() && b < fin.slices.len() && fin.slices[a] == fin.slices[b]
                && pos_finalize(fin, waves_len)[a] == pos_finalize(fin, waves_len)[b]
        }),
    decreases vars_left, data.len() - i,
{
    if vars_left == 0 {
        lemma_pos_run_wf(data, i, vars_left, st, waves_len);
    } else {
        let (v, end) = varint_parse_at(data, i, 0, 0).unwrap();
        let e = pos_entry_of(v, svarint_parse_at(data, i, 0, 0).unwrap().0);
        let st2 = pos_step(st, e, waves_len).unwrap();
        lemma_pos_step_wf(st, e, waves_len);
        lemma_pos_step_equal(st, e, waves_len, a, b);
        lemma_varint_parse_at_range(data, i, 0, 0);
        lemma_pos_run_equal(
            data,
            end,
            (vars_left - pos_entry_cover(e)) as nat,
            st2,
            waves_len,
            a,
            b,
        );
    }
}

/// Position-table invariant: a variable declared by a dynamic-alias code has
/// the same final slice as the variable it aliases.  The code at `i` aliases
/// the new variable `st.slices.len()` to variable `t`; a repeat code aliases
/// it to the target of the previous alias.
pub proof fn lemma_pos_alias_shares_slice(
    data: Seq<u8>,
    i: int,
    vars_left: nat,
    st: PosState,
    waves_len: u64,
)
    requires
        pos_state_wf(st, waves_len),
        pos_table_run(data, i, vars_left, st, waves_len) is Some,
        vars_left > 0,
        varint_parse_at(data, i, 0, 0) is Some,
        pos_entry_of(varint_parse_at(data, i, 0, 0).unwrap().0, svarint_parse_at(data, i, 0, 0).unwrap().0) is Alias
            || pos_entry_of(varint_parse_at(data, i, 0, 0).unwrap().0, svarint_parse_at(data, i, 0, 0).unwrap().0) is RepeatAlias,
    ensures
        ({
            let e = pos_entry_of(
                varint_parse_at(data, i, 0, 0).unwrap().0,
                svarint_parse_at(data, i, 0, 0).unwrap().0,
            );
            let t: int = match e {
                PosEntry::Alias(t0) => t0 as int,
                _ => st.prev_alias.unwrap() as int,
            };
            let fin = pos_table_run(data, i, vars_left, st, waves_len).unwrap();
            let n = st.slices.len() as int;
            &&& 0 <= t < n < fin.slices.len()
            &&& pos_finalize(fin, waves_len)[n] == pos_finalize(fin, waves_len)[t]
        }),
{
    let (v, end) = varint_parse_at(data, i, 0, 0).unwrap();
    let e = pos_entry_of(v, svarint_parse_at(data, i, 0, 0).unwrap().0);
    let st2 = pos_step(st, e, waves_len).unwrap();
    let t: int = match e {
        PosEntry::Alias(t0) => t0 as int,
        _ => st.prev_alias.unwrap() as int,
    };
    let n = st.slices.len() as int;
    assert(st2.slices[n] == st2.slices[t]);
    lemma_pos_step_wf(st, e, waves_len);
    lemma_varint_parse_at_range(data, i, 0, 0);
    lemma_pos_run_equal(
        data,
        end,
        (vars_left - pos_entry_cover(e)) as nat,
        st2,
        waves_len,
        n,
        t,
    );
}

/// Every code of the table at `i` covering `vars_left` variables is a
/// positive offset (no zero-runs, no aliases), as far as the codes parse.
pub open spec fn pos_all_offsets(data: Seq<u8>, i: int, vars_left: nat) -> bool
    decreases vars_left,
{
    if vars_left == 0 {
        true
    } else {
        match varint_parse_at(data, i, 0, 0) {
            None => true,
            Some((v, end)) => {
                let e = pos_entry_of(v, svarint_parse_at(data, i, 0, 0).unwrap().0);
                e is Offset && pos_all_offsets(data, end, (vars_left - 1) as nat)
            },
        }
    }
}

/// The total bytes the slices cover, duplicates counted.
pub open spec fn slices_len_sum(tbl: Seq<(u64, u64)>) -> int
    decreases tbl.len(),
{
    if tbl.len() == 0 {
        0
    } else {
        (tbl[0].1 - tbl[0].0) + slices_len_sum(tbl.drop_first())
    }
}

/// Resolver state shaped by offset codes alone: the settled slices and the
/// single pending one tile a prefix of the waves region contiguously.
spec fn offsets_state_wf(st: PosState) -> bool {
    if st.slices.len() == 0 {
        st.unresolved_from == 0
    } else {
        &&& st.unresolved_from == st.slices.len() - 1
        &&& st.slices.last().1 == u64::MAX
        &&& st.prev_off >= 1
        &&& st.slices.last().0 == st.prev_off - 1
        &&& (forall|v: int| 0 <= v < st.slices.len() - 1 ==> (#[trigger] st.slices[v]).1 != u64::MAX)
        &&& (forall|v: int|
            0 <= v < st.slices.len() - 1 ==> (#[trigger] st.slices[v]).1 == st.slices[v + 1].0)
    }
}

proof fn lemma_pos_run_offsets_shape(
    data: Seq<u8>,
    i: int,
    vars_left: nat,
    st: PosState,
    waves_len: u64,
)
    requires
        offsets_state_wf(st),
        pos_all_offsets(data, i, vars_left),
        pos_table_run(data, i, vars_left, st, waves_len) is Some,
    ensures
        offsets_state_wf(pos_table_run(data, i, vars_left, st, waves_len).unwrap()),
        pos_table_run(data, i, vars_left, st, waves_len).unwrap().slices.len() == st.slices.len()
            + vars_left,
    decreases vars_left, data.len() - i,
{
    if vars_left != 0 {
        let (v, end) = varint_parse_at(data, i, 0, 0).unwrap();
        let e = pos_entry_of(v, svarint_parse_at(data, i, 0, 0).unwrap().0);
        let st2 = pos_step(st, e, waves_len).unwrap();
        let d = e->Offset_0;
        let cur = (st.prev_off + d) as u64;
        assert forall|q: int| 0 <= q < st2.slices.len() - 1 implies (#[trigger] st2.slices[q]).1
            != u64::MAX && st2.slices[q].1 == st2.slices[q + 1].0 by {
            if q < st.slices.len() - 1 {
                assert(st2.slices[q] == st.slices[q]);
                if q + 1 < st.slices.len() - 1 {
                    assert(st2.slices[q + 1] == st.slices[q + 1]);
                } else {
                    assert(st2.slices[q + 1] == (st.slices[q + 1].0, (cur - 1) as u64));
                }
            } else {
                assert(st2.slices[q] == (st.slices[q].0, (cur - 1) as u64));
                assert(st2.slices[q + 1] == ((cur - 1) as u64, u64::MAX));
                assert(cur - 1 < u64::MAX);
            }
        }
        lemma_varint_parse_at_range(data, i, 0, 0);
        lemma_pos_run_offsets_shape(data, end, (vars_left - 1) as nat, st2, waves_len);
    }
}

proof fn lemma_sum_of_contiguous(tbl: Seq<(u64, u64)>, last_end: u64)
    requires
        tbl.len() > 0,
        forall|v: int| 0 <= v < tbl.len() - 1 ==> (#[trigger] tbl[v]).1 == tbl[v + 1].0,
        tbl.last().1 == last_end,
    ensures
        slices_len_sum(tbl) == last_end - tbl[0].0,
    decreases tbl.len(),
{
    if tbl.len() == 1 {
        assert(tbl.drop_first().len() == 0);
        assert(slices_len_sum(tbl.drop_first()) == 0);
        assert(tbl.last() == tbl[0]);
    } else {
        let rest = tbl.drop_first();
        assert forall|v: int| 0 <= v < rest.len() - 1 implies (#[trigger] rest[v]).1 == rest[v
            + 1].0 by {
            assert(rest[v] == tbl[v + 1]);
            assert(rest[v + 1] == tbl[v + 2]);
        }
        assert(rest.last() == tbl.last());
        lemma_sum_of_contiguous(rest, last_end);
        assert(rest[0] == tbl[1]);
        assert(tbl[0].1 == tbl[1].0);
    }
}

/// Block-level invariant: when every position-table code is a positive
/// offset, the slices tile the waves region contiguously — each slice ends
/// where the next begins, the last ends at the region length — and so the
/// sum of the slice lengths is the whole region past the first slice's
/// start.
pub proof fn lemma_pos_table_tiles(data: Seq<u8>, i: int, num_vars: nat, waves_len: u64)
    requires
        pos_table(data, i, num_vars, waves_len) is Some,
        pos_all_offsets(data, i, num_vars),
        num_vars > 0,
    ensures
        ({
            let tbl = pos_table(data, i, num_vars, waves_len).unwrap();
            &&& tbl.len() == num_vars
            &&& (forall|v: int| 0 <= v < tbl.len() - 1 ==> (#[trigger] tbl[v]).1 == tbl[v + 1].0)
            &&& tbl.last().1 == waves_len
            &&& slices_len_sum(tbl) == waves_len - tbl[0].0
        }),
{
    let st = pos_table_run(data, i, num_vars, pos_init(), waves_len).unwrap();
    lemma_pos_run_offsets_shape(data, i, num_vars, pos_init(), waves_len);
    let tbl = pos_finalize(st, waves_len);
    assert forall|v: int| 0 <= v < tbl.len() - 1 implies (#[trigger] tbl[v]).1 == tbl[v + 1].0 by {
        assert(st.slices[v].1 != u64::MAX);
        if v + 1 < st.slices.len() - 1 {
            assert(st.slices[v + 1].1 != u64::MAX);
        }
    }
    assert(tbl.last() == (st.slices.last().0, waves_len));
    lemma_sum_of_contiguous(tbl, waves_len);
}

/// The metadata of one value-change block, including the absolute offsets of
/// each sub-region in the image so it can be found again quickly.
#[derive(Clone, Debug)]
pub struct ValueChangeBlockInfo {
    pub start_time: u64,
    pub end_time: u64,
    pub memory_required: u64,
    pub bits_uncompressed_length: u64,
    pub bits_compressed_length: u64,
    pub bits_count: u64,
    /// Offset of the initial-values data from the start of the image.
    pub bits_data_offset: u64,
    pub waves_count: u64,
    pub waves_packtype: u8,
    /// Offset of the waves data from the start of the image.
    pub waves_data_offset: u64,
    /// Offset of the position table from the start of the image.
    pub position_data_offset: u64,
    pub position_length: u64,
    /// Offset of the time table from the start of the image.
    pub time_data_offset: u64,
    pub time_uncompressed_length: u64,
    pub time_compressed_length: u64,
    pub time_count: u64,
}

/// A decoded value-change block: its metadata and its absolute times.
#[derive(Clone, Debug)]
pub struct ValueChangeBlockData {
    pub info: ValueChangeBlockInfo,
    /// The change times of this block, absolute and non-decreasing.
    pub times: Vec<u64>,
}

/// Per-variable data gathered across all value-change blocks: the initial
/// value in each block, and the byte range of the variable's wave data in
/// each block (an empty range means no changes there).
#[derive(Clone, Debug)]
pub struct VarData {
    pub initial_values: ValVec,
    pub wave_slices: Vec<WaveSlice>,
}

/// The metadata a value-change block body of `block_length` bytes at `p`
/// parses to, walking the block exactly as the reader does: the three time
/// words, the varint-framed initial-values region, the waves region header,
/// and the trailer holding the time-table words and the position-table
/// length.  `None` when any region does not fit (the initial-values region
/// must lie within its own block) or a varint fails.
#[verifier::opaque]
pub open spec fn vc_block_info(data: Seq<u8>, p: int, block_length: u64) -> Option<
    ValueChangeBlockInfo,
> {
    let be = p + block_length;
    if be > data.len() || p + 24 > data.len() {
        None
    } else {
        match varint_parse_at(data, p + 24, 0, 0) {
            None => None,
            Some((bul, i1)) => match varint_parse_at(data, i1, 0, 0) {
                None => None,
                Some((bcl, i2)) => match varint_parse_at(data, i2, 0, 0) {
                    None => None,
                    Some((bcnt, i3)) => {
                        if bcl > be - i3 {
                            None
                        } else {
                            match varint_parse_at(data, i3 + bcl, 0, 0) {
                                None => None,
                                Some((wcount, i4)) => {
                                    if i4 >= data.len() || be < 24 {
                                        None
                                    } else {
                                        let tul = be_u64_spec(data.subrange(be - 24, be - 16));
                                        let tcl = be_u64_spec(data.subrange(be - 16, be - 8));
                                        let tcnt = be_u64_spec(data.subrange(be - 8, be));
                                        if tcl + 32 > be {
                                            None
                                        } else {
                                            let plo = be - tcl - 32;
                                            let plen = be_u64_spec(data.subrange(plo, plo + 8));
                                            if plen > plo || i4 + 1 > plo - plen {
                                                None
                                            } else {
                                                Some(
                                                    ValueChangeBlockInfo {
                                                        start_time: be_u64_spec(
                                                            data.subrange(p, p + 8),
                                                        ),
                                                        end_time: be_u64_spec(
                                                            data.subrange(p + 8, p + 16),
                                                        ),
                                                        memory_required: be_u64_spec(
                                                            data.subrange(p + 16, p + 24),
                                                        ),
                                                        bits_uncompressed_length: bul,
                                                        bits_compressed_length: bcl,
                                                        bits_count: bcnt,
                                                        bits_data_offset: i3 as u64,
                                                        waves_count: wcount,
                                                        waves_packtype: data[i4],
                                                        waves_data_offset: (i4 + 1) as u64,
                                                        position_data_offset: (plo - plen) as u64,
                                                        position_length: plen,
                                                        time_data_offset: (plo + 8) as u64,
                                                        time_uncompressed_length: tul,
                                                        time_compressed_length: tcl,
                                                        time_count: tcnt,
                                                    },
                                                )
                                            }
                                        }
                                    }
                                },
                            }
                        }
                    },
                },
            },
        }
    }
}

/// Decode a value-change block body at the cursor: its metadata, its
/// resolved position table (appended to each variable's `wave_slices`), and
/// its time table.  Succeeds exactly when the metadata, the position table
/// and the time table all parse and `var_data` holds `num_vars` entries; the
/// cursor is then left at the block's end.
pub fn read_value_change_block(
    data: &[u8],
    pos: &mut usize,
    block_length: u64,
    num_vars: u64,
    var_data: &mut Vec<VarData>,
) -> (r: Result<ValueChangeBlockData, FstError>)
    ensures
        ({
            let p = *old(pos) as int;
            let ok_conditions = {
                &&& vc_block_info(data@, p, block_length) is Some
                &&& old(var_data)@.len() == num_vars
                &&& {
                    let info = vc_block_info(data@, p, block_length).unwrap();
                    &&& pos_table(
                        data@,
                        info.position_data_offset as int,
                        num_vars as nat,
                        (info.position_data_offset - info.waves_data_offset) as u64,
                    ) is Some
                    &&& change_times(
                        data@,
                        info.time_data_offset as int,
                        info.time_compressed_length,
                        info.time_uncompressed_length,
                        info.time_count,
                    ) is Some
                }
            };
            match r {
                Ok(d) => {
                    let info = vc_block_info(data@, p, block_length).unwrap();
                    let tbl = pos_table(
                        data@,
                        info.position_data_offset as int,
                        num_vars as nat,
                        (info.position_data_offset - info.waves_data_offset) as u64,
                    ).unwrap();
                    &&& ok_conditions
                    &&& d.info == info
                    &&& d.info.bits_data_offset + d.info.bits_compressed_length <= p
                        + block_length
                    &&& d.info.bits_data_offset + d.info.bits_compressed_length <= data@.len()
                    &&& d.info.time_data_offset <= data@.len()
                    &&& d.info.waves_data_offset <= d.info.position_data_offset <= data@.len()
                    &&& *final(pos) == p + block_length
                    &&& *final(pos) <= data@.len()
                    &&& change_times(
                        data@,
                        info.time_data_offset as int,
                        info.time_compressed_length,
                        info.time_uncompressed_length,
                        info.time_count,
                    ) == Some(d.times@)
                    &&& d.times@.len() == info.time_count
                    &&& (forall|j: int|
                        1 <= j < d.times@.len() ==> d.times@[j - 1] <= #[trigger] d.times@[j])
                    &&& final(var_data)@.len() == num_vars
                    &&& (forall|v: int|
                        0 <= v < num_vars ==> (#[trigger] final(var_data)@[v]).wave_slices@ == old(
                            var_data,
                        )@[v].wave_slices@.push(
                            WaveSlice { start: tbl[v].0, end: tbl[v].1 },
                        ))
                    &&& (forall|v: int|
                        0 <= v < num_vars ==> (#[trigger] final(var_data)@[v]).initial_values@
                            == old(var_data)@[v].initial_values@)
                },
                Err(e) => !ok_conditions && (e == FstError::Io || e == FstError::Malformed || e
                    == FstError::Decompress),
            }
        }),
{
    proof {
        reveal(vc_block_info);
    }
    let ghost p = *pos as int;
    if *pos > data.len() || block_length > (data.len() - *pos) as u64 {
        return Err(FstError::Io);
    }
    let block_end: usize = *pos + block_length as usize;
    let start_time = match read_be_u64(data, pos) {
        Ok(v) => v,
        Err(e) => { return Err(e) },
    };
    let end_time = match read_be_u64(data, pos) {
        Ok(v) => v,
        Err(e) => { return Err(e) },
    };
    let memory_required = match read_be_u64(data, pos) {
        Ok(v) => v,
        Err(e) => { return Err(e) },
    };
    let bits_uncompressed_length = match read_varint(data, pos) {
        Ok(v) => v,
        Err(e) => { return Err(e) },
    };
    let bits_compressed_length = match read_varint(data, pos) {
        Ok(v) => v,
        Err(e) => { return Err(e) },
    };
    let bits_count = match read_varint(data, pos) {
        Ok(v) => v,
        Err(e) => { return Err(e) },
    };
    let bits_data_offset = *pos as u64;
    if *pos > block_end || bits_compressed_length > (block_end - *pos) as u64 {
        return Err(FstError::Malformed);
    }
    *pos = *pos + bits_compressed_length as usize;
    let waves_count = match read_varint(data, pos) {
        Ok(v) => v,
        Err(e) => { return Err(e) },
    };
    let waves_packtype = match read_u8(data, pos) {
        Ok(v) => v,
        Err(e) => { return Err(e) },
    };
    let waves_data_offset = *pos as u64;
    if block_end < 24 {
        return Err(FstError::Malformed);
    }
    *pos = block_end - 24;
    let time_uncompressed_length = match read_be_u64(data, pos) {
        Ok(v) => v,
        Err(e) => { return Err(e) },
    };
    let time_compressed_length = match read_be_u64(data, pos) {
        Ok(v) => v,
        Err(e) => { return Err(e) },
    };
    let time_count = match read_be_u64(data, pos) {
        Ok(v) => v,
        Err(e) => { return Err(e) },
    };
    let tail = match time_compressed_length.checked_add(32) {
        Some(t) => t,
        None => { return Err(FstError::Malformed) },
    };
    let position_length_offset = match (block_end as u64).checked_sub(tail) {
        Some(t) => t,
        None => { return Err(FstError::Malformed) },
    };
    let time_data_offset = position_length_offset + 8;
    *pos = position_length_offset as usize;
    let position_length = match read_be_u64(data, pos) {
        Ok(v) => v,
        Err(e) => { return Err(e) },
    };
    let position_data_offset = match position_length_offset.checked_sub(position_length) {
        Some(t) => t,
        None => {
            proof {
                assert(vc_block_info(data@, p, block_length) is None);
            }
            return Err(FstError::Malformed)
        },
    };
    let waves_data_length = match position_data_offset.checked_sub(waves_data_offset) {
        Some(t) => t,
        None => {
            proof {
                assert(vc_block_info(data@, p, block_length) is None);
            }
            return Err(FstError::Malformed)
        },
    };
    let info = ValueChangeBlockInfo {
        start_time,
        end_time,
        memory_required,
        bits_uncompressed_length,
        bits_compressed_length,
        bits_count,
        bits_data_offset,
        waves_count,
        waves_packtype,
        waves_data_offset,
        position_data_offset,
        position_length,
        time_data_offset,
        time_uncompressed_length,
        time_compressed_length,
        time_count,
    };
    proof {
        assert(vc_block_info(data@, p, block_length) == Some(info));
    }
    if var_data.len() as u64 != num_vars {
        return Err(FstError::Malformed);
    }
    *pos = position_data_offset as usize;
    let slices = match read_wave_slices(data, pos, num_vars, waves_data_length) {
        Ok(s) => s,
        Err(e) => { return Err(e) },
    };
    let mut v: usize = 0;
    while v < slices.len()
        invariant
            v <= slices@.len() == num_vars,
            var_data@.len() == old(var_data)@.len() == num_vars,
            forall|idx: int|
                0 <= idx < v ==> (#[trigger] var_data@[idx]).wave_slices@ == old(
                    var_data,
                )@[idx].wave_slices@.push(slices@[idx]) && var_data@[idx].initial_values@ == old(
                    var_data,
                )@[idx].initial_values@,
            forall|idx: int|
                v <= idx < num_vars ==> #[trigger] var_data@[idx] == old(var_data)@[idx],
        decreases slices@.len() - v,
    {
        let mut tmp = VarData { initial_values: Vec::new(), wave_slices: Vec::new() };
        var_data.set_and_swap(v, &mut tmp);
        tmp.wave_slices.push(slices[v]);
        var_data.set_and_swap(v, &mut tmp);
        v = v + 1;
    }
    *pos = time_data_offset as usize;
    let times = match read_change_times(
        data,
        pos,
        time_compressed_length,
        time_uncompressed_length,
        time_count,
    ) {
        Ok(t) => t,
        Err(e) => { return Err(e) },
    };
    *pos = block_end;
    proof {
        let tbl = pos_table(
            data@,
            info.position_data_offset as int,
            num_vars as nat,
            (info.position_data_offset - info.waves_data_offset) as u64,
        ).unwrap();
        assert forall|vv: int| 0 <= vv < num_vars implies (#[trigger] var_data@[vv]).wave_slices@
            == old(var_data)@[vv].wave_slices@.push(
            WaveSlice { start: tbl[vv].0, end: tbl[vv].1 },
        ) by {
            assert(slices@[vv] == (WaveSlice { start: tbl[vv].0, end: tbl[vv].1 }));
        }
    }
    Ok(ValueChangeBlockData { info, times })
}

} // verus!
