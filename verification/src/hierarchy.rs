//! The hierarchy block: the design's scope tree with its variables.
//!
//! The block body is raw, LZ4-compressed, or doubly LZ4-compressed, and
//! holds a stream of tag-prefixed records walked depth-first: scope open and
//! close, attributes, and variable declarations.  Variables are assigned
//! dense ids in declaration order; an alias record reuses the id of an
//! earlier declaration.

use crate::compress::{lz4_decompress, lz4_inflate};
use crate::error::FstError;
use crate::fst::VarId;
use crate::text::{lossy_utf8, utf8_lossy};
use crate::varint::varint_parse_at;
use vstd::prelude::*;

verus! {

/// Record tag: attribute begin.
pub const TAG_ATTRBEGIN: u8 = 252;

/// Record tag: attribute end.
pub const TAG_ATTREND: u8 = 253;

/// Record tag: scope open.
pub const TAG_SCOPE: u8 = 254;

/// Record tag: scope close.
pub const TAG_UPSCOPE: u8 = 255;

/// One scope of the design hierarchy.
#[derive(Debug)]
pub struct HierarchyScope {
    pub type_: u8,
    pub name: String,
    pub component: String,
    pub vars: Vec<HierarchyVar>,
    pub attrs: Vec<HierarchyAttr>,
}

/// One variable declaration within a scope.
#[derive(Debug)]
pub struct HierarchyVar {
    pub type_: u8,
    pub direction: u8,
    pub name: String,
    pub length: u64,
    /// Shared with the primary declaration when `is_alias` is set.
    pub id: VarId,
    pub is_alias: bool,
}

/// One attribute record within a scope.
#[derive(Debug)]
pub struct HierarchyAttr {
    pub type_: u8,
    pub subtype: u8,
    pub name: String,
    pub arg: u64,
    pub arg_from_name: u64,
}

/// The decoded hierarchy: a flat arena of scopes in depth-first declaration
/// order, with each scope's parent index.  Scope ids index this arena.
#[derive(Debug)]
pub struct Hierarchy {
    pub scopes: Vec<HierarchyScope>,
    /// `parent[i]` is the arena index of scope `i`'s parent; `None` for the
    /// root.
    pub parent: Vec<Option<usize>>,
}

/// How many of these variable declarations allocated a fresh id (are not
/// aliases).
pub open spec fn vars_alloc_count(vars: Seq<HierarchyVar>) -> nat
    decreases vars.len(),
{
    if vars.len() == 0 {
        0
    } else {
        vars_alloc_count(vars.drop_last()) + (if vars.last().is_alias {
            0nat
        } else {
            1nat
        })
    }
}

/// How many variable ids the whole arena allocated.
pub open spec fn scopes_alloc_count(scopes: Seq<HierarchyScope>) -> nat
    decreases scopes.len(),
{
    if scopes.len() == 0 {
        0
    } else {
        scopes_alloc_count(scopes.drop_last()) + vars_alloc_count(scopes.last().vars@)
    }
}

impl Hierarchy {
    /// The number of distinct variable ids the hierarchy declares: its
    /// non-alias declarations, counted over every scope.
    pub open spec fn num_allocated_vars(self) -> nat {
        scopes_alloc_count(self.scopes@)
    }

    /// The arena is a tree: one parent entry per scope, each pointing at an
    /// earlier scope, and only the first scope is a root.  Ids are assigned
    /// in declaration order, so every variable's id, alias or not, lies
    /// below the number of allocated ids.
    pub open spec fn wf(self) -> bool {
        &&& self.parent@.len() == self.scopes@.len()
        &&& (forall|i: int|
            0 <= i < self.parent@.len() ==> match #[trigger] self.parent@[i] {
                Some(t) => t < i,
                None => i == 0,
            })
        &&& (forall|s: int, v: int|
            0 <= s < self.scopes@.len() && 0 <= v < self.scopes@[s].vars@.len()
                ==> (#[trigger] self.scopes@[s].vars@[v]).id.0 < self.num_allocated_vars())
    }
}

proof fn lemma_scopes_count_push(scopes: Seq<HierarchyScope>, sc: HierarchyScope)
    ensures
        scopes_alloc_count(scopes.push(sc)) == scopes_alloc_count(scopes) + vars_alloc_count(
            sc.vars@,
        ),
{
    assert(scopes.push(sc).drop_last() =~= scopes);
    assert(scopes.push(sc).last() == sc);
}

proof fn lemma_scopes_count_update(scopes: Seq<HierarchyScope>, k: int, sc: HierarchyScope)
    requires
        0 <= k < scopes.len(),
    ensures
        scopes_alloc_count(scopes.update(k, sc)) == scopes_alloc_count(scopes) - vars_alloc_count(
            scopes[k].vars@,
        ) + vars_alloc_count(sc.vars@),
    decreases scopes.len(),
{
    if k == scopes.len() - 1 {
        assert(scopes.update(k, sc).drop_last() =~= scopes.drop_last());
        assert(scopes.update(k, sc).last() == sc);
    } else {
        assert(scopes.update(k, sc).drop_last() =~= scopes.drop_last().update(k, sc));
        assert(scopes.update(k, sc).last() == scopes.last());
        lemma_scopes_count_update(scopes.drop_last(), k, sc);
        assert(scopes.drop_last()[k] == scopes[k]);
    }
}

/// The first 512 bytes at `i` hold no NUL: the name is over-long.
pub open spec fn nul_overlong(s: Seq<u8>, i: int) -> bool {
    i + 512 <= s.len() && forall|j: int| i <= j < i + 512 ==> s[j] != 0
}

/// The index of the first NUL at or after `i`, within a 512-byte window and
/// the input; `None` when there is none.
pub open spec fn nul_scan(s: Seq<u8>, i: int, budget: nat) -> Option<int>
    decreases budget,
{
    if i < 0 || i >= s.len() {
        None
    } else if s[i] == 0 {
        Some(i)
    } else if budget == 0 {
        None
    } else {
        nul_scan(s, i + 1, (budget - 1) as nat)
    }
}

/// Read a NUL-terminated name of at most 512 bytes at the cursor, decoded
/// lossily as UTF-8; the cursor advances past the NUL.  An over-long name is
/// `UnsupportedFormat`; the input ending first is `Io`.
pub fn read_nul_string(stream: &[u8], spos: &mut usize) -> (r: Result<String, FstError>)
    ensures
        match r {
            Ok(name) => {
                &&& nul_scan(stream@, *old(spos) as int, 511) is Some
                &&& ({
                    let k = nul_scan(stream@, *old(spos) as int, 511).unwrap();
                    &&& name@ == lossy_utf8(stream@.subrange(*old(spos) as int, k))
                    &&& *final(spos) == k + 1
                })
                &&& *old(spos) < *final(spos) <= stream@.len()
            },
            Err(e) => {
                &&& nul_scan(stream@, *old(spos) as int, 511) is None
                &&& e == (if nul_overlong(stream@, *old(spos) as int) {
                    FstError::UnsupportedFormat
                } else {
                    FstError::Io
                })
            },
        },
{
    let start = *spos;
    if start >= stream.len() {
        return Err(FstError::Io);
    }
    let mut j = start;
    loop
        invariant
            start == *old(spos),
            start <= j,
            j - start <= 511,
            j <= stream@.len(),
            forall|q: int| start <= q < j ==> stream@[q] != 0,
            nul_scan(stream@, start as int, 511) == nul_scan(
                stream@,
                j as int,
                (511 - (j - start)) as nat,
            ),
        decreases stream@.len() - j,
    {
        if j >= stream.len() {
            proof {
                assert(!nul_overlong(stream@, start as int));
            }
            return Err(FstError::Io);
        }
        let b = stream[j];
        if b == 0 {
            let name = utf8_lossy(vstd::slice::slice_subrange(stream, start, j));
            *spos = j + 1;
            return Ok(name);
        }
        if j - start >= 511 {
            proof {
                assert forall|q: int| start <= q < start + 512 implies stream@[q] != 0 by {
                    if q < j {
                    } else {
                        assert(q == j);
                    }
                }
                assert(nul_overlong(stream@, start as int));
            }
            return Err(FstError::UnsupportedFormat);
        }
        j = j + 1;
    }
}

/// A successful scan finds its NUL within the input and the window.
pub proof fn lemma_nul_scan_range(s: Seq<u8>, i: int, budget: nat)
    requires
        nul_scan(s, i, budget) is Some,
    ensures
        i <= nul_scan(s, i, budget).unwrap() < s.len(),
        nul_scan(s, i, budget).unwrap() <= i + budget,
    decreases budget,
{
    if !(i < 0 || i >= s.len()) && s[i] != 0 && budget != 0 {
        lemma_nul_scan_range(s, i + 1, (budget - 1) as nat);
    }
}

/// The model of one variable declaration: its name as characters, its id as
/// a plain integer.
pub struct SpecHierVar {
    pub type_: u8,
    pub direction: u8,
    pub name: Seq<char>,
    pub length: u64,
    pub id: int,
    pub is_alias: bool,
}

/// The model of one attribute record.  `arg_from_name` has no wire field
/// and is always 0, kept for parity with `HierarchyAttr`.
pub struct SpecHierAttr {
    pub type_: u8,
    pub subtype: u8,
    pub name: Seq<char>,
    pub arg: u64,
    pub arg_from_name: u64,
}

/// The model of one scope: names as characters, variables and attributes as
/// models.
pub struct SpecHierScope {
    pub type_: u8,
    pub name: Seq<char>,
    pub component: Seq<char>,
    pub vars: Seq<SpecHierVar>,
    pub attrs: Seq<SpecHierAttr>,
}

/// The record parser's state: the arena built so far, the open-scope stack,
/// the next fresh variable id, and whether no record has been seen yet.
pub struct HierParseState {
    pub scopes: Seq<SpecHierScope>,
    pub parent: Seq<Option<int>>,
    pub stack: Seq<int>,
    pub next_varid: int,
    pub first: bool,
}

/// What a decoded variable holds, as a model.
pub open spec fn var_model(v: HierarchyVar) -> SpecHierVar {
    SpecHierVar {
        type_: v.type_,
        direction: v.direction,
        name: v.name@,
        length: v.length,
        id: v.id.0 as int,
        is_alias: v.is_alias,
    }
}

/// What a decoded attribute holds, as a model.
pub open spec fn attr_model(a: HierarchyAttr) -> SpecHierAttr {
    SpecHierAttr {
        type_: a.type_,
        subtype: a.subtype,
        name: a.name@,
        arg: a.arg,
        arg_from_name: a.arg_from_name,
    }
}

/// What a decoded scope holds, as a model.
pub open spec fn scope_model(s: HierarchyScope) -> SpecHierScope {
    SpecHierScope {
        type_: s.type_,
        name: s.name@,
        component: s.component@,
        vars: Seq::new(s.vars@.len(), |k: int| var_model(s.vars@[k])),
        attrs: Seq::new(s.attrs@.len(), |k: int| attr_model(s.attrs@[k])),
    }
}

/// The whole arena, as models.
pub open spec fn scopes_model(s: Seq<HierarchyScope>) -> Seq<SpecHierScope> {
    Seq::new(s.len(), |k: int| scope_model(s[k]))
}

/// Parent indices as plain integers.
pub open spec fn parent_model(p: Seq<Option<usize>>) -> Seq<Option<int>> {
    Seq::new(
        p.len(),
        |k: int|
            match p[k] {
                Some(t) => Some(t as int),
                None => None,
            },
    )
}

/// The record parser's initial state.
pub open spec fn hier_init() -> HierParseState {
    HierParseState {
        scopes: Seq::empty(),
        parent: Seq::empty(),
        stack: Seq::empty(),
        next_varid: 0,
        first: true,
    }
}

/// Parse the tag-prefixed hierarchy records of `s` from index `i` in state
/// `st`, yielding the scope arena and parent indices when the root scope
/// closes.  `None` is any failure: the stream ending first, a first record
/// that is not a scope open, an over-long name, an alias to an id not yet
/// allocated, or a close with no open scope.
#[verifier::opaque]
pub open spec fn hier_run(s: Seq<u8>, i: int, st: HierParseState) -> Option<
    (Seq<SpecHierScope>, Seq<Option<int>>),
>
    decreases s.len() - i,
        via hier_run_decreases
{
    if i < 0 || i >= s.len() {
        None
    } else {
        let tag = s[i];
        if st.first && tag != 254 {
            None
        } else if tag == 252 {
            match nul_scan(s, i + 3, 511) {
                None => None,
                Some(k) => match varint_parse_at(s, k + 1, 0, 0) {
                    None => None,
                    Some((arg, end)) => {
                        if st.stack.len() == 0 {
                            None
                        } else {
                            let cur = st.stack.last();
                            if !(0 <= cur < st.scopes.len()) {
                                None
                            } else {
                                let a = SpecHierAttr {
                                    type_: s[i + 1],
                                    subtype: s[i + 2],
                                    name: lossy_utf8(s.subrange(i + 3, k)),
                                    arg: arg,
                                    arg_from_name: 0,
                                };
                                let sc2 = SpecHierScope {
                                    type_: st.scopes[cur].type_,
                                    name: st.scopes[cur].name,
                                    component: st.scopes[cur].component,
                                    vars: st.scopes[cur].vars,
                                    attrs: st.scopes[cur].attrs.push(a),
                                };
                                hier_run(
                                    s,
                                    end,
                                    HierParseState {
                                        scopes: st.scopes.update(cur, sc2),
                                        parent: st.parent,
                                        stack: st.stack,
                                        next_varid: st.next_varid,
                                        first: st.first,
                                    },
                                )
                            }
                        }
                    },
                },
            }
        } else if tag == 253 {
            hier_run(s, i + 1, st)
        } else if tag == 254 {
            match nul_scan(s, i + 2, 511) {
                None => None,
                Some(k1) => match nul_scan(s, k1 + 1, 511) {
                    None => None,
                    Some(k2) => {
                        if i + 2 > s.len() {
                            None
                        } else {
                            let idx = st.scopes.len() as int;
                            let par: Option<int> = if st.stack.len() > 0 {
                                Some(st.stack.last())
                            } else {
                                None
                            };
                            if idx > 0 && par is None {
                                None
                            } else {
                                let sc = SpecHierScope {
                                    type_: s[i + 1],
                                    name: lossy_utf8(s.subrange(i + 2, k1)),
                                    component: lossy_utf8(s.subrange(k1 + 1, k2)),
                                    vars: Seq::empty(),
                                    attrs: Seq::empty(),
                                };
                                hier_run(
                                    s,
                                    k2 + 1,
                                    HierParseState {
                                        scopes: st.scopes.push(sc),
                                        parent: st.parent.push(par),
                                        stack: st.stack.push(idx),
                                        next_varid: st.next_varid,
                                        first: false,
                                    },
                                )
                            }
                        }
                    },
                },
            }
        } else if tag == 255 {
            if st.stack.len() == 0 {
                None
            } else if st.stack.len() == 1 {
                Some((st.scopes, st.parent))
            } else {
                hier_run(
                    s,
                    i + 1,
                    HierParseState {
                        scopes: st.scopes,
                        parent: st.parent,
                        stack: st.stack.drop_last(),
                        next_varid: st.next_varid,
                        first: st.first,
                    },
                )
            }
        } else {
            match nul_scan(s, i + 2, 511) {
                None => None,
                Some(k) => match varint_parse_at(s, k + 1, 0, 0) {
                    None => None,
                    Some((vlen, e1)) => match varint_parse_at(s, e1, 0, 0) {
                        None => None,
                        Some((valias, e2)) => {
                            let id: int = if valias == 0 {
                                st.next_varid
                            } else {
                                valias - 1
                            };
                            let id_ok = if valias == 0 {
                                st.next_varid < u64::MAX
                            } else {
                                valias - 1 < st.next_varid
                            };
                            if !id_ok || id > usize::MAX || st.stack.len() == 0 {
                                None
                            } else {
                                let cur = st.stack.last();
                                if !(0 <= cur < st.scopes.len()) {
                                    None
                                } else {
                                    let v = SpecHierVar {
                                        type_: tag,
                                        direction: s[i + 1],
                                        name: lossy_utf8(s.subrange(i + 2, k)),
                                        length: vlen,
                                        id: id,
                                        is_alias: valias != 0,
                                    };
                                    let sc2 = SpecHierScope {
                                        type_: st.scopes[cur].type_,
                                        name: st.scopes[cur].name,
                                        component: st.scopes[cur].component,
                                        vars: st.scopes[cur].vars.push(v),
                                        attrs: st.scopes[cur].attrs,
                                    };
                                    hier_run(
                                        s,
                                        e2,
                                        HierParseState {
                                            scopes: st.scopes.update(cur, sc2),
                                            parent: st.parent,
                                            stack: st.stack,
                                            next_varid: if valias == 0 {
                                                st.next_varid + 1
                                            } else {
                                                st.next_varid
                                            },
                                            first: st.first,
                                        },
                                    )
                                }
                            }
                        },
                    },
                },
            }
        }
    }
}

#[via_fn]
proof fn hier_run_decreases(s: Seq<u8>, i: int, st: HierParseState) {
    if !(i < 0 || i >= s.len()) {
        let tag = s[i];
        if tag == 252 {
            if nul_scan(s, i + 3, 511) is Some {
                let k = nul_scan(s, i + 3, 511).unwrap();
                lemma_nul_scan_range(s, i + 3, 511);
                if varint_parse_at(s, k + 1, 0, 0) is Some {
                    crate::varint::lemma_varint_parse_at_range(s, k + 1, 0, 0);
                }
            }
        } else if tag == 254 {
            if nul_scan(s, i + 2, 511) is Some {
                let k1 = nul_scan(s, i + 2, 511).unwrap();
                lemma_nul_scan_range(s, i + 2, 511);
                if nul_scan(s, k1 + 1, 511) is Some {
                    lemma_nul_scan_range(s, k1 + 1, 511);
                }
            }
        } else if tag != 253 && tag != 255 {
            if nul_scan(s, i + 2, 511) is Some {
                let k = nul_scan(s, i + 2, 511).unwrap();
                lemma_nul_scan_range(s, i + 2, 511);
                if varint_parse_at(s, k + 1, 0, 0) is Some {
                    crate::varint::lemma_varint_parse_at_range(s, k + 1, 0, 0);
                    let e1 = varint_parse_at(s, k + 1, 0, 0).unwrap().1;
                    if varint_parse_at(s, e1, 0, 0) is Some {
                        crate::varint::lemma_varint_parse_at_range(s, e1, 0, 0);
                    }
                }
            }
        }
    }
}

/// Which decompression the hierarchy block uses.
#[derive(Debug, Copy, Clone, PartialEq, Eq, Structural)]
pub enum HierarchyCompression {
    /// The body is the record stream itself.
    Raw,
    /// The body is one LZ4 block.
    Lz4,
    /// The body is an LZ4 block holding another LZ4 block.
    Lz4Duo,
}

/// The hierarchy block body fits and decompresses per its kind.
pub open spec fn hier_stream_ok(
    data: Seq<u8>,
    p: int,
    compression: HierarchyCompression,
    block_length: u64,
) -> bool {
    &&& p + block_length <= data.len()
    &&& block_length >= 8
    &&& (match compression {
        HierarchyCompression::Raw => true,
        HierarchyCompression::Lz4 => {
            let ulen = crate::bytes::be_u64_spec(data.subrange(p, p + 8));
            ulen <= usize::MAX && lz4_inflate(
                data.subrange(p + 8, p + block_length),
                ulen as nat,
            ) is Some
        },
        HierarchyCompression::Lz4Duo => {
            let ulen = crate::bytes::be_u64_spec(data.subrange(p, p + 8));
            let olen = crate::bytes::be_u64_spec(data.subrange(p + 8, p + 16));
            &&& block_length >= 16
            &&& olen <= usize::MAX
            &&& ulen <= usize::MAX
            &&& lz4_inflate(data.subrange(p + 16, p + block_length), olen as nat) is Some
            &&& lz4_inflate(
                lz4_inflate(data.subrange(p + 16, p + block_length), olen as nat).unwrap(),
                ulen as nat,
            ) is Some
        },
    })
}

/// The record stream a hierarchy block body decompresses to.
pub open spec fn hier_stream(
    data: Seq<u8>,
    p: int,
    compression: HierarchyCompression,
    block_length: u64,
) -> Seq<u8> {
    match compression {
        HierarchyCompression::Raw => data.subrange(p + 8, p + block_length),
        HierarchyCompression::Lz4 => {
            let ulen = crate::bytes::be_u64_spec(data.subrange(p, p + 8));
            lz4_inflate(data.subrange(p + 8, p + block_length), ulen as nat).unwrap()
        },
        HierarchyCompression::Lz4Duo => {
            let ulen = crate::bytes::be_u64_spec(data.subrange(p, p + 8));
            let olen = crate::bytes::be_u64_spec(data.subrange(p + 8, p + 16));
            lz4_inflate(
                lz4_inflate(data.subrange(p + 16, p + block_length), olen as nat).unwrap(),
                ulen as nat,
            ).unwrap()
        },
    }
}

/// Decode a hierarchy block body of `block_length` bytes at the cursor into
/// a scope arena.  Succeeds exactly when the body decompresses and its
/// records parse (`hier_run`); the arena is then exactly the parse's, a
/// well-formed tree, and the cursor rests at the block's end.
pub fn read_hierarchy(
    data: &[u8],
    pos: &mut usize,
    compression: HierarchyCompression,
    block_length: u64,
) -> (r: Result<Hierarchy, FstError>)
    ensures
        match r {
            Ok(h) => {
                let p = *old(pos) as int;
                let run = hier_run(hier_stream(data@, p, compression, block_length), 0, hier_init());
                &&& hier_stream_ok(data@, p, compression, block_length)
                &&& run is Some
                &&& scopes_model(h.scopes@) == run.unwrap().0
                &&& parent_model(h.parent@) == run.unwrap().1
                &&& h.wf()
                &&& *final(pos) == *old(pos) + block_length
                &&& *final(pos) <= data@.len()
            },
            Err(e) => {
                let p = *old(pos) as int;
                &&& !(hier_stream_ok(data@, p, compression, block_length) && hier_run(
                    hier_stream(data@, p, compression, block_length),
                    0,
                    hier_init(),
                ) is Some)
                &&& (e == FstError::Io || e == FstError::Malformed || e == FstError::Decompress
                    || e == FstError::UnsupportedFormat)
                &&& (e == FstError::Decompress <==> (p + block_length <= data@.len()
                    && block_length >= 8 && (match compression {
                    HierarchyCompression::Raw => false,
                    HierarchyCompression::Lz4 => {
                        let ulen = crate::bytes::be_u64_spec(data@.subrange(p, p + 8));
                        ulen <= usize::MAX && lz4_inflate(
                            data@.subrange(p + 8, p + block_length),
                            ulen as nat,
                        ) is None
                    },
                    HierarchyCompression::Lz4Duo => {
                        let ulen = crate::bytes::be_u64_spec(data@.subrange(p, p + 8));
                        let olen = crate::bytes::be_u64_spec(data@.subrange(p + 8, p + 16));
                        &&& block_length >= 16
                        &&& olen <= usize::MAX
                        &&& ulen <= usize::MAX
                        &&& (lz4_inflate(
                            data@.subrange(p + 16, p + block_length),
                            olen as nat,
                        ) is None || lz4_inflate(
                            lz4_inflate(
                                data@.subrange(p + 16, p + block_length),
                                olen as nat,
                            ).unwrap(),
                            ulen as nat,
                        ) is None)
                    },
                })))
                &&& (e == FstError::UnsupportedFormat ==> (hier_stream_ok(
                    data@,
                    p,
                    compression,
                    block_length,
                ) && exists|q: int|
                    nul_overlong(hier_stream(data@, p, compression, block_length), q)))
                &&& ((hier_stream_ok(data@, p, compression, block_length) && hier_stream(
                    data@,
                    p,
                    compression,
                    block_length,
                ).len() > 0 && hier_stream(data@, p, compression, block_length)[0] != TAG_SCOPE)
                    ==> e == FstError::Malformed)
            },
        },
{
    let ghost p0 = *pos as int;
    let block_start = *pos;
    if *pos > data.len() || block_length > (data.len() - *pos) as u64 {
        return Err(FstError::Io);
    }
    let uncompressed_length = match crate::bytes::read_be_u64(data, pos) {
        Ok(v) => v,
        Err(e) => { return Err(e) },
    };
    if block_length < 8 {
        return Err(FstError::Malformed);
    }
    let stream: Vec<u8>;
    match compression {
        HierarchyCompression::Raw => {
            stream = match crate::bytes::read_bytes(data, pos, (block_length - 8) as usize) {
                Ok(v) => v,
                Err(e) => { return Err(e) },
            };
        },
        HierarchyCompression::Lz4 => {
            let payload = match crate::bytes::read_bytes(data, pos, (block_length - 8) as usize) {
                Ok(v) => v,
                Err(e) => { return Err(e) },
            };
            if uncompressed_length > usize::MAX as u64 {
                return Err(FstError::Malformed);
            }
            stream = match lz4_decompress(payload.as_slice(), uncompressed_length as usize) {
                Some(v) => v,
                None => { return Err(FstError::Decompress) },
            };
        },
        HierarchyCompression::Lz4Duo => {
            let once_length = match crate::bytes::read_be_u64(data, pos) {
                Ok(v) => v,
                Err(e) => { return Err(e) },
            };
            if block_length < 16 {
                return Err(FstError::Malformed);
            }
            let payload = match crate::bytes::read_bytes(data, pos, (block_length - 16) as usize) {
                Ok(v) => v,
                Err(e) => { return Err(e) },
            };
            if once_length > usize::MAX as u64 || uncompressed_length > usize::MAX as u64 {
                return Err(FstError::Malformed);
            }
            let once = match lz4_decompress(payload.as_slice(), once_length as usize) {
                Some(v) => v,
                None => { return Err(FstError::Decompress) },
            };
            stream = match lz4_decompress(once.as_slice(), uncompressed_length as usize) {
                Some(v) => v,
                None => { return Err(FstError::Decompress) },
            };
        },
    }
    proof {
        assert(stream@ == hier_stream(data@, p0, compression, block_length));
        assert(hier_stream_ok(data@, p0, compression, block_length));
    }
    let h = match parse_hierarchy_records(stream.as_slice()) {
        Ok(h) => h,
        Err(e) => { return Err(e) },
    };
    *pos = block_start + block_length as usize;
    Ok(h)
}

/// The open-scope stack, as plain indices.
pub open spec fn stack_model(st: Seq<usize>) -> Seq<int> {
    Seq::new(st.len(), |k: int| st[k] as int)
}

/// Parse the decompressed record stream: scope opens and closes, attribute
/// records, and variable declarations, until the root scope closes.
/// Succeeds exactly when the record parse (`hier_run`) does, and returns
/// exactly the arena it yields, attributes included.
#[verifier::rlimit(100)]
#[verifier::spinoff_prover]
fn parse_hierarchy_records(stream: &[u8]) -> (r: Result<Hierarchy, FstError>)
    ensures
        match r {
            Ok(h) => {
                &&& hier_run(stream@, 0, hier_init()) is Some
                &&& scopes_model(h.scopes@) == hier_run(stream@, 0, hier_init()).unwrap().0
                &&& parent_model(h.parent@) == hier_run(stream@, 0, hier_init()).unwrap().1
                &&& h.wf()
            },
            Err(e) => {
                &&& hier_run(stream@, 0, hier_init()) is None
                &&& (e == FstError::Io || e == FstError::Malformed || e
                    == FstError::UnsupportedFormat)
                &&& (e == FstError::UnsupportedFormat ==> exists|q: int|
                    nul_overlong(stream@, q))
                &&& (stream@.len() > 0 && stream@[0] != TAG_SCOPE ==> e == FstError::Malformed)
            },
        },
{
    proof {
        reveal(hier_run);
    }
    let ghost target = hier_run(stream@, 0, hier_init());
    let mut scopes: Vec<HierarchyScope> = Vec::new();
    let mut parent: Vec<Option<usize>> = Vec::new();
    let mut stack: Vec<usize> = Vec::new();
    let mut next_varid: u64 = 0;
    let mut first = true;
    let mut spos: usize = 0;
    proof {
        assert(scopes_model(scopes@) =~= Seq::<SpecHierScope>::empty());
        assert(parent_model(parent@) =~= Seq::<Option<int>>::empty());
        assert(stack_model(stack@) =~= Seq::<int>::empty());
    }
    loop
        invariant
            spos <= stream@.len(),
            scopes@.len() == parent@.len(),
            forall|i: int|
                0 <= i < parent@.len() ==> match #[trigger] parent@[i] {
                    Some(t) => t < i,
                    None => i == 0,
                },
            forall|i: int| 0 <= i < stack@.len() ==> #[trigger] stack@[i] < scopes@.len(),
            first ==> scopes@.len() == 0 && spos == 0,
            !first ==> scopes@.len() > 0 && stream@.len() > 0 && stream@[0] == TAG_SCOPE,
            scopes_alloc_count(scopes@) == next_varid,
            forall|s: int, v: int|
                0 <= s < scopes@.len() && 0 <= v < scopes@[s].vars@.len()
                    ==> (#[trigger] scopes@[s].vars@[v]).id.0 < next_varid,
            target == hier_run(stream@, 0, hier_init()),
            target == hier_run(
                stream@,
                spos as int,
                (HierParseState {
                    scopes: scopes_model(scopes@),
                    parent: parent_model(parent@),
                    stack: stack_model(stack@),
                    next_varid: next_varid as int,
                    first: first,
                }),
            ),
        decreases stream@.len() - spos,
    {
        proof {
            reveal(hier_run);
        }
        let ghost i0 = spos as int;
        let ghost st0 = HierParseState {
            scopes: scopes_model(scopes@),
            parent: parent_model(parent@),
            stack: stack_model(stack@),
            next_varid: next_varid as int,
            first: first,
        };
        let tag = match crate::bytes::read_u8(stream, &mut spos) {
            Ok(t) => t,
            Err(e) => { return Err(e) },
        };
        if first && tag != TAG_SCOPE {
            return Err(FstError::Malformed);
        }
        if tag == TAG_ATTRBEGIN {
            let attr_type = match crate::bytes::read_u8(stream, &mut spos) {
                Ok(t) => t,
                Err(e) => { return Err(e) },
            };
            let attr_subtype = match crate::bytes::read_u8(stream, &mut spos) {
                Ok(t) => t,
                Err(e) => { return Err(e) },
            };
            let attr_name = match read_nul_string(stream, &mut spos) {
                Ok(s) => s,
                Err(e) => { return Err(e) },
            };
            let attr_value = match crate::varint::read_varint(stream, &mut spos) {
                Ok(v) => v,
                Err(e) => { return Err(e) },
            };
            if stack.len() == 0 {
                return Err(FstError::Malformed);
            }
            let cur = stack[stack.len() - 1];
            let ghost old_scopes = scopes@;
            let mut tmp = HierarchyScope {
                type_: 0,
                name: String::new(),
                component: String::new(),
                vars: Vec::new(),
                attrs: Vec::new(),
            };
            scopes.set_and_swap(cur, &mut tmp);
            tmp.attrs.push(
                HierarchyAttr {
                    type_: attr_type,
                    subtype: attr_subtype,
                    name: attr_name,
                    arg: attr_value,
                    arg_from_name: 0,
                },
            );
            scopes.set_and_swap(cur, &mut tmp);
            proof {
                let sc_after = scopes@[cur as int];
                assert(scopes@ =~= old_scopes.update(cur as int, sc_after));
                assert(sc_after.vars@ =~= old_scopes[cur as int].vars@);
                lemma_scopes_count_update(old_scopes, cur as int, sc_after);
                assert(vars_alloc_count(sc_after.vars@) == vars_alloc_count(
                    old_scopes[cur as int].vars@,
                ));
                assert forall|s: int, v: int|
                    0 <= s < scopes@.len() && 0 <= v < scopes@[s].vars@.len() implies (
                #[trigger] scopes@[s].vars@[v]).id.0 < next_varid by {
                    if s == cur as int {
                        assert(scopes@[s].vars@[v] == old_scopes[s].vars@[v]);
                    } else {
                        assert(scopes@[s] == old_scopes[s]);
                    }
                }
                let k = nul_scan(stream@, i0 + 3, 511).unwrap();
                let a_spec = SpecHierAttr {
                    type_: stream@[i0 + 1],
                    subtype: stream@[i0 + 2],
                    name: lossy_utf8(stream@.subrange(i0 + 3, k)),
                    arg: attr_value,
                    arg_from_name: 0,
                };
                let curi = cur as int;
                assert(st0.stack.last() == curi);
                assert(st0.scopes[curi] == scope_model(old_scopes[curi]));
                let sc2 = SpecHierScope {
                    type_: st0.scopes[curi].type_,
                    name: st0.scopes[curi].name,
                    component: st0.scopes[curi].component,
                    vars: st0.scopes[curi].vars,
                    attrs: st0.scopes[curi].attrs.push(a_spec),
                };
                assert(attr_model(sc_after.attrs@.last()) == a_spec);
                assert(scope_model(sc_after).attrs =~= sc2.attrs);
                assert(scope_model(sc_after).vars =~= sc2.vars);
                assert(scope_model(sc_after) == sc2);
                assert(scopes_model(scopes@) =~= st0.scopes.update(curi, sc2));
            }
        } else if tag == TAG_ATTREND {
        } else if tag == TAG_SCOPE {
            let scope_type = match crate::bytes::read_u8(stream, &mut spos) {
                Ok(t) => t,
                Err(e) => { return Err(e) },
            };
            let scope_name = match read_nul_string(stream, &mut spos) {
                Ok(s) => s,
                Err(e) => { return Err(e) },
            };
            let scope_component = match read_nul_string(stream, &mut spos) {
                Ok(s) => s,
                Err(e) => { return Err(e) },
            };
            let idx = scopes.len();
            let par: Option<usize> = if stack.len() > 0 {
                Some(stack[stack.len() - 1])
            } else {
                None
            };
            if idx > 0 && par.is_none() {
                // A second root cannot arise: parsing ends when the first
                // root closes.  Reject it to keep the arena a tree.
                return Err(FstError::Malformed);
            }
            let ghost old_scopes = scopes@;
            let ghost old_parent = parent@;
            let ghost old_stack = stack@;
            scopes.push(
                HierarchyScope {
                    type_: scope_type,
                    name: scope_name,
                    component: scope_component,
                    vars: Vec::new(),
                    attrs: Vec::new(),
                },
            );
            parent.push(par);
            stack.push(idx);
            first = false;
            proof {
                lemma_scopes_count_push(old_scopes, scopes@.last());
                assert(vars_alloc_count(scopes@.last().vars@) == 0);
                assert forall|s: int, v: int|
                    0 <= s < scopes@.len() && 0 <= v < scopes@[s].vars@.len() implies (
                #[trigger] scopes@[s].vars@[v]).id.0 < next_varid by {
                    assert(s < old_scopes.len());
                    assert(scopes@[s] == old_scopes[s]);
                }
                let k1 = nul_scan(stream@, i0 + 2, 511).unwrap();
                let k2 = nul_scan(stream@, k1 + 1, 511).unwrap();
                let sc = SpecHierScope {
                    type_: stream@[i0 + 1],
                    name: lossy_utf8(stream@.subrange(i0 + 2, k1)),
                    component: lossy_utf8(stream@.subrange(k1 + 1, k2)),
                    vars: Seq::empty(),
                    attrs: Seq::empty(),
                };
                assert(scope_model(scopes@.last()).vars =~= sc.vars);
                assert(scope_model(scopes@.last()).attrs =~= sc.attrs);
                assert(scope_model(scopes@.last()) == sc);
                assert(scopes_model(scopes@) =~= st0.scopes.push(sc));
                assert(parent_model(parent@) =~= st0.parent.push(
                    match par {
                        Some(t) => Some(t as int),
                        None => None,
                    },
                ));
                assert(stack_model(stack@) =~= st0.stack.push(idx as int));
                assert(st0.stack.len() > 0 ==> st0.stack.last() == old_stack.last() as int);
            }
        } else if tag == TAG_UPSCOPE {
            match stack.pop() {
                Some(_) => (),
                None => { return Err(FstError::Malformed) },
            };
            if stack.len() == 0 {
                let h = Hierarchy { scopes, parent };
                proof {
                    assert(st0.stack.len() == 1);
                    assert(hier_run(stream@, i0, st0) == Some((st0.scopes, st0.parent)));
                }
                return Ok(h);
            }
            proof {
                assert(stack_model(stack@) =~= st0.stack.drop_last());
            }
        } else {
            let var_direction = match crate::bytes::read_u8(stream, &mut spos) {
                Ok(t) => t,
                Err(e) => { return Err(e) },
            };
            let var_name = match read_nul_string(stream, &mut spos) {
                Ok(s) => s,
                Err(e) => { return Err(e) },
            };
            let var_length = match crate::varint::read_varint(stream, &mut spos) {
                Ok(v) => v,
                Err(e) => { return Err(e) },
            };
            let var_alias = match crate::varint::read_varint(stream, &mut spos) {
                Ok(v) => v,
                Err(e) => { return Err(e) },
            };
            let id: u64;
            let is_alias: bool;
            if var_alias == 0 {
                if next_varid == u64::MAX {
                    return Err(FstError::Malformed);
                }
                id = next_varid;
                next_varid = next_varid + 1;
                is_alias = false;
            } else {
                if var_alias - 1 >= next_varid {
                    return Err(FstError::Malformed);
                }
                id = var_alias - 1;
                is_alias = true;
            }
            if id > usize::MAX as u64 {
                return Err(FstError::Malformed);
            }
            if stack.len() == 0 {
                return Err(FstError::Malformed);
            }
            let cur = stack[stack.len() - 1];
            let ghost old_scopes = scopes@;
            let mut tmp = HierarchyScope {
                type_: 0,
                name: String::new(),
                component: String::new(),
                vars: Vec::new(),
                attrs: Vec::new(),
            };
            scopes.set_and_swap(cur, &mut tmp);
            tmp.vars.push(
                HierarchyVar {
                    type_: tag,
                    direction: var_direction,
                    name: var_name,
                    length: var_length,
                    id: VarId(id as usize),
                    is_alias,
                },
            );
            scopes.set_and_swap(cur, &mut tmp);
            proof {
                let sc_after = scopes@[cur as int];
                assert(scopes@ =~= old_scopes.update(cur as int, sc_after));
                assert(sc_after.vars@.drop_last() =~= old_scopes[cur as int].vars@);
                lemma_scopes_count_update(old_scopes, cur as int, sc_after);
                assert(vars_alloc_count(sc_after.vars@) == vars_alloc_count(
                    old_scopes[cur as int].vars@,
                ) + (if is_alias {
                    0nat
                } else {
                    1nat
                }));
                assert forall|s: int, v: int|
                    0 <= s < scopes@.len() && 0 <= v < scopes@[s].vars@.len() implies (
                #[trigger] scopes@[s].vars@[v]).id.0 < next_varid by {
                    if s == cur as int {
                        if v < sc_after.vars@.len() - 1 {
                            assert(scopes@[s].vars@[v] == old_scopes[s].vars@[v]);
                        }
                    } else {
                        assert(scopes@[s] == old_scopes[s]);
                    }
                }
                let k = nul_scan(stream@, i0 + 2, 511).unwrap();
                let v_spec = SpecHierVar {
                    type_: tag,
                    direction: stream@[i0 + 1],
                    name: lossy_utf8(stream@.subrange(i0 + 2, k)),
                    length: var_length,
                    id: id as int,
                    is_alias: var_alias != 0,
                };
                let curi = cur as int;
                assert(st0.stack.last() == curi);
                assert(st0.scopes[curi] == scope_model(old_scopes[curi]));
                let sc2 = SpecHierScope {
                    type_: st0.scopes[curi].type_,
                    name: st0.scopes[curi].name,
                    component: st0.scopes[curi].component,
                    vars: st0.scopes[curi].vars.push(v_spec),
                    attrs: st0.scopes[curi].attrs,
                };
                assert(var_model(sc_after.vars@.last()) == v_spec);
                assert(scope_model(sc_after).vars =~= sc2.vars);
                assert(sc_after.attrs@ =~= old_scopes[curi].attrs@);
                assert(scope_model(sc_after).attrs =~= sc2.attrs);
                assert(scope_model(sc_after) == sc2);
                assert(scopes_model(scopes@) =~= st0.scopes.update(curi, sc2));
            }
        }
    }
}

} // verus!
