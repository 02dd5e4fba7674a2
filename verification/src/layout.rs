//! TR layouts and the parser for the RES layout description language.
//!
//! A layout description declares one TR (one message type): a header with
//! the TR's code and transport options, then its request and response
//! blocks, each a list of fixed-width fields.  [`load`] parses one
//! description text into a [`TrLayout`].
//!
//! The grammar is pinned down by the `sp_*` spec functions in this module,
//! which consume the symbol list that [`crate::read`] defines; `load`'s
//! contract says that it returns exactly what they describe.

pub mod error;

use vstd::prelude::*;
use vstd::string::StrSliceExecFns;

use crate::read::{self, Position, StrRead, TokG};
use crate::text;
use self::error::{Error, ErrorKind};

verus! {

/// Whether a layout describes a query TR or a real-time feed TR.
#[derive(PartialEq, Eq, Structural, Clone, Copy, Debug)]
pub enum TrType {
    /// Query ("tr" / ".Func").
    Tr,
    /// Real-time feed ("real" / ".Feed").
    Real,
}

/// The vendor's header-framing variant; carried through, not interpreted.
#[derive(PartialEq, Eq, Structural, Clone, Copy, Debug)]
pub enum HeaderType {
    A,
    B,
    C,
    D,
}

/// Direction of a block: request or response.
#[derive(PartialEq, Eq, Structural, Clone, Copy, Debug)]
pub enum BlockType {
    /// Request data.
    Input,
    /// Response data.
    Output,
}

/// The declared type of a field's textual value.
#[derive(PartialEq, Eq, Structural, Clone, Copy, Debug)]
pub enum FieldType {
    /// Free text.
    Char,
    /// A date.
    Date,
    /// An integer.
    Int,
    /// A 32-bit real number.
    Float,
    /// A 64-bit real number.
    Double,
}

/// One fixed-width field of a block.
#[derive(Clone, Debug)]
pub struct FieldLayout {
    /// Human-readable description.
    pub desc: String,
    /// The field's name in older SDK versions.
    pub name_old: String,
    /// The field's current name.
    pub name: String,
    /// Declared value type.
    pub field_type: FieldType,
    /// Width in bytes on the wire, the attribute byte not counted.
    pub len: usize,
    /// Number of decimal places, when declared as `len.point`.
    pub point: Option<usize>,
}

/// Mathematical image of a [`FieldLayout`].
pub ghost struct FieldLayoutV {
    pub desc: Seq<char>,
    pub name_old: Seq<char>,
    pub name: Seq<char>,
    pub field_type: FieldType,
    pub len: int,
    pub point: Option<int>,
}

impl View for FieldLayout {
    type V = FieldLayoutV;

    open spec fn view(&self) -> FieldLayoutV {
        FieldLayoutV {
            desc: self.desc@,
            name_old: self.name_old@,
            name: self.name@,
            field_type: self.field_type,
            len: self.len as int,
            point: match self.point {
                Some(p) => Some(p as int),
                None => None,
            },
        }
    }
}

/// One block of a TR: a named record made of fields.
#[derive(Clone, Debug)]
pub struct BlockLayout {
    /// Block name, e.g. `t1101OutBlock`.
    pub name: String,
    /// Human-readable description.
    pub desc: String,
    /// Direction of the block.
    pub block_type: BlockType,
    /// Whether the block repeats (an `occurs` array block).
    pub occurs: bool,
    /// Width in bytes of one record of this block, attribute bytes
    /// counted.
    pub len: usize,
    /// The fields, in wire order.
    pub fields: Vec<FieldLayout>,
}

/// Mathematical image of a [`BlockLayout`].
pub ghost struct BlockLayoutV {
    pub name: Seq<char>,
    pub desc: Seq<char>,
    pub block_type: BlockType,
    pub occurs: bool,
    pub len: int,
    pub fields: Seq<FieldLayoutV>,
}

impl View for BlockLayout {
    type V = BlockLayoutV;

    open spec fn view(&self) -> BlockLayoutV {
        BlockLayoutV {
            name: self.name@,
            desc: self.desc@,
            block_type: self.block_type,
            occurs: self.occurs,
            len: self.len as int,
            fields: self.fields@.map_values(|f: FieldLayout| f@),
        }
    }
}

/// The layout of one TR: its code, transport options, and blocks.
#[derive(Clone, Debug)]
pub struct TrLayout {
    /// Query or real-time.
    pub tr_type: TrType,
    /// Human-readable description.
    pub desc: String,
    /// The TR code, the key under which the layout is looked up.
    pub code: String,
    /// Whether each field carries one trailing attribute byte on the
    /// wire.
    pub attr: bool,
    /// Whether the transport hands blocks over one by one, by name.
    pub block: bool,
    /// Header-framing variant, when declared.
    pub header_type: Option<HeaderType>,
    /// Request blocks, in declared order.
    pub in_blocks: Vec<BlockLayout>,
    /// Response blocks, in declared order.
    pub out_blocks: Vec<BlockLayout>,
}

/// Mathematical image of a [`TrLayout`].
pub ghost struct TrLayoutV {
    pub tr_type: TrType,
    pub desc: Seq<char>,
    pub code: Seq<char>,
    pub attr: bool,
    pub block: bool,
    pub header_type: Option<HeaderType>,
    pub in_blocks: Seq<BlockLayoutV>,
    pub out_blocks: Seq<BlockLayoutV>,
}

impl View for TrLayout {
    type V = TrLayoutV;

    open spec fn view(&self) -> TrLayoutV {
        TrLayoutV {
            tr_type: self.tr_type,
            desc: self.desc@,
            code: self.code@,
            attr: self.attr,
            block: self.block,
            header_type: self.header_type,
            in_blocks: self.in_blocks@.map_values(|b: BlockLayout| b@),
            out_blocks: self.out_blocks@.map_values(|b: BlockLayout| b@),
        }
    }
}

/// Bytes one field occupies on the wire: its width plus the attribute
/// byte when the TR has them.
pub open spec fn field_extent(f: FieldLayoutV, attr: bool) -> int {
    f.len + if attr {
        1int
    } else {
        0int
    }
}

/// Bytes one record of a block occupies: the sum of its fields' extents.
pub open spec fn body_len(fields: Seq<FieldLayoutV>, attr: bool) -> int
    decreases fields.len(),
{
    if fields.len() == 0 {
        0
    } else {
        body_len(fields.drop_last(), attr) + field_extent(fields.last(), attr)
    }
}

/// A field as the parser produces it: its width fits the machine.
pub open spec fn wf_field(f: FieldLayoutV) -> bool {
    &&& 0 <= f.len <= usize::MAX
    &&& match f.point {
        Some(p) => 0 <= p <= usize::MAX,
        None => true,
    }
}

/// A block as the parser produces it: the recorded record width is the
/// sum of the field extents, and fits the machine.
pub open spec fn wf_block(b: BlockLayoutV, attr: bool) -> bool {
    &&& forall|i: int| 0 <= i < b.fields.len() ==> wf_field(#[trigger] b.fields[i])
    &&& b.len == body_len(b.fields, attr)
    &&& 0 <= b.len <= usize::MAX
}

/// A layout as the parser produces it.
pub open spec fn wf_tr(t: TrLayoutV) -> bool {
    &&& forall|i: int| 0 <= i < t.in_blocks.len() ==> wf_block(#[trigger] t.in_blocks[i], t.attr)
    &&& forall|i: int| 0 <= i < t.out_blocks.len() ==> wf_block(#[trigger] t.out_blocks[i], t.attr)
}

/// Extents are never negative, so a record's width grows with its field
/// list.
pub proof fn lemma_body_len_prefix(fields: Seq<FieldLayoutV>, attr: bool, i: int, j: int)
    requires
        forall|k: int| 0 <= k < fields.len() ==> wf_field(#[trigger] fields[k]),
        0 <= i <= j <= fields.len(),
    ensures
        body_len(fields.subrange(0, i), attr) <= body_len(fields.subrange(0, j), attr),
    decreases j - i,
{
    if i < j {
        lemma_body_len_prefix(fields, attr, i, j - 1);
        let p = fields.subrange(0, j);
        assert(p.drop_last() =~= fields.subrange(0, j - 1));
        assert(p.last() == fields[j - 1]);
    }
}

// ---------------------------------------------------------------------
// The grammar, as spec functions over the symbol list.
// ---------------------------------------------------------------------

/// A parse error at the symbol whose source index is `off`.
pub ghost struct PErr {
    pub kind: ErrorKind,
    pub off: int,
}

/// The position that `position()` reports after a symbol was consumed:
/// the collapsed empty symbol leaves the previous position standing.
pub open spec fn upd_mark(lm: int, t: TokG) -> int {
    if t.text.len() == 0 {
        lm
    } else {
        t.off
    }
}

/// Consumes one symbol; the end of the input is an EOF error at the last
/// consumed symbol.
pub open spec fn sp_next(toks: Seq<TokG>, lm: int) -> Result<(Seq<char>, Seq<TokG>, int), PErr> {
    if toks.len() == 0 {
        Err(PErr { kind: ErrorKind::Eof, off: lm })
    } else {
        Ok((toks[0].text, toks.drop_first(), upd_mark(lm, toks[0])))
    }
}

/// Consumes a `,`.  A `;` here means a parameter is missing (a data
/// error); anything else is a syntax error.
pub open spec fn sp_delim(toks: Seq<TokG>, lm: int) -> Result<(Seq<TokG>, int), PErr> {
    match sp_next(toks, lm) {
        Err(e) => Err(e),
        Ok((t, r, lm1)) => if t == ","@ {
            Ok((r, lm1))
        } else if t == ";"@ {
            Err(PErr { kind: ErrorKind::Data, off: lm1 })
        } else {
            Err(PErr { kind: ErrorKind::Syntax, off: lm1 })
        },
    }
}

/// The TR type keyword, in its legacy or current spelling.
pub open spec fn tr_type_of(t: Seq<char>) -> Option<TrType> {
    if t == ".Func"@ || t == "tr"@ {
        Some(TrType::Tr)
    } else if t == ".Feed"@ || t == "real"@ {
        Some(TrType::Real)
    } else {
        None
    }
}

/// The header type keyword.
pub open spec fn header_type_of(t: Seq<char>) -> Option<HeaderType> {
    if t == "A"@ {
        Some(HeaderType::A)
    } else if t == "B"@ {
        Some(HeaderType::B)
    } else if t == "C"@ {
        Some(HeaderType::C)
    } else if t == "D"@ {
        Some(HeaderType::D)
    } else {
        None
    }
}

/// The block type keyword.
pub open spec fn block_type_of(t: Seq<char>) -> Option<BlockType> {
    if t == "input"@ {
        Some(BlockType::Input)
    } else if t == "output"@ {
        Some(BlockType::Output)
    } else {
        None
    }
}

/// The field type keyword; the integer type has a legacy and a current
/// spelling.
pub open spec fn field_type_of(t: Seq<char>) -> Option<FieldType> {
    if t == "char"@ {
        Some(FieldType::Char)
    } else if t == "date"@ {
        Some(FieldType::Date)
    } else if t == "long"@ || t == "int"@ {
        Some(FieldType::Int)
    } else if t == "float"@ {
        Some(FieldType::Float)
    } else if t == "double"@ {
        Some(FieldType::Double)
    } else {
        None
    }
}

/// The TR-level options gathered while reading the header's parameter
/// list.
pub ghost struct TrParams {
    pub attr: bool,
    pub block: bool,
    pub header_type: Option<HeaderType>,
}

/// What one TR header parameter does to the options; `None` is a data
/// error.  A `key=value` parameter needs an all-letter key; `headtype`
/// must carry a header type, `key` and `group` an unsigned number, and a
/// handful of informational keys take anything without an `=` in it.
pub open spec fn tr_param_apply(t: Seq<char>, ps: TrParams) -> Option<TrParams> {
    match text::first_idx_of(t, '=') {
        Some(i) => {
            let key = t.subrange(0, i);
            let val = t.subrange(i + 1, t.len() as int);
            if !text::all_alpha(key) || text::first_idx_of(val, '=') is Some {
                None
            } else if key == "headtype"@ {
                match header_type_of(val) {
                    Some(h) => Some(TrParams { header_type: Some(h), ..ps }),
                    None => None,
                }
            } else if key == "key"@ || key == "group"@ {
                if text::parse_uint(val) is Some {
                    Some(ps)
                } else {
                    None
                }
            } else if key == "tuxcode"@ || key == "svr"@ || key == "SERVICE"@ || key == "CREATOR"@
                || key == "CREDATE"@ {
                Some(ps)
            } else {
                None
            }
        },
        None => {
            if t == "attr"@ {
                Some(TrParams { attr: true, ..ps })
            } else if t == "block"@ {
                Some(TrParams { block: true, ..ps })
            } else if t == "ENCRYPT"@ || t == "SIGNATURE"@ {
                Some(ps)
            } else {
                None
            }
        },
    }
}

/// The TR header's parameter list: `, param` repeated, closed by `;`.
pub open spec fn sp_tr_params(toks: Seq<TokG>, lm: int, ps: TrParams) -> Result<
    (TrParams, Seq<TokG>, int),
    PErr,
>
    decreases toks.len(),
{
    match sp_next(toks, lm) {
        Err(e) => Err(e),
        Ok((t, r1, lm1)) => if t == ";"@ {
            Ok((ps, r1, lm1))
        } else if t == ","@ {
            match sp_next(r1, lm1) {
                Err(e) => Err(e),
                Ok((p, r2, lm2)) => match tr_param_apply(p, ps) {
                    Some(ps2) => sp_tr_params(r2, lm2, ps2),
                    None => Err(PErr { kind: ErrorKind::Data, off: lm2 }),
                },
            }
        } else {
            Err(PErr { kind: ErrorKind::Syntax, off: lm1 })
        },
    }
}

/// A block's parameter list: only `occurs` is known.
pub open spec fn sp_block_params(toks: Seq<TokG>, lm: int, occurs: bool) -> Result<
    (bool, Seq<TokG>, int),
    PErr,
>
    decreases toks.len(),
{
    match sp_next(toks, lm) {
        Err(e) => Err(e),
        Ok((t, r1, lm1)) => if t == ";"@ {
            Ok((occurs, r1, lm1))
        } else if t == ","@ {
            match sp_next(r1, lm1) {
                Err(e) => Err(e),
                Ok((p, r2, lm2)) => if p == "occurs"@ {
                    sp_block_params(r2, lm2, true)
                } else {
                    Err(PErr { kind: ErrorKind::Data, off: lm2 })
                },
            }
        } else {
            Err(PErr { kind: ErrorKind::Syntax, off: lm1 })
        },
    }
}

/// A field's width: `uint` or `uint.uint`, each part fitting `usize`.
pub open spec fn field_len_of(t: Seq<char>) -> Option<(int, Option<int>)> {
    match text::first_idx_of(t, '.') {
        None => match text::parse_usize(t) {
            Some(v) => Some((v, None)),
            None => None,
        },
        Some(i) => {
            let l = text::parse_usize(t.subrange(0, i));
            let p = text::parse_usize(t.subrange(i + 1, t.len() as int));
            if l is Some && p is Some {
                Some((l->0, Some(p->0)))
            } else {
                None
            }
        },
    }
}

/// One field declaration: description, old name, name, type and width,
/// each separated by `,`, with an optional closing `;`.
pub open spec fn sp_field(toks: Seq<TokG>, lm: int) -> Result<
    (FieldLayoutV, Seq<TokG>, int),
    PErr,
> {
    match sp_next(toks, lm) {
        Err(e) => Err(e),
        Ok((desc, r1, lm1)) => match sp_delim(r1, lm1) {
            Err(e) => Err(e),
            Ok((r2, lm2)) => match sp_next(r2, lm2) {
                Err(e) => Err(e),
                Ok((name_old, r3, lm3)) => match sp_delim(r3, lm3) {
                    Err(e) => Err(e),
                    Ok((r4, lm4)) => match sp_next(r4, lm4) {
                        Err(e) => Err(e),
                        Ok((name, r5, lm5)) => match sp_delim(r5, lm5) {
                            Err(e) => Err(e),
                            Ok((r6, lm6)) => match sp_next(r6, lm6) {
                                Err(e) => Err(e),
                                Ok((ft, r7, lm7)) => match field_type_of(ft) {
                                    None => Err(PErr { kind: ErrorKind::Data, off: lm7 }),
                                    Some(field_type) => match sp_delim(r7, lm7) {
                                        Err(e) => Err(e),
                                        Ok((r8, lm8)) => match sp_next(r8, lm8) {
                                            Err(e) => Err(e),
                                            Ok((lt, r9, lm9)) => match field_len_of(lt) {
                                                None => Err(
                                                    PErr { kind: ErrorKind::Data, off: lm9 },
                                                ),
                                                Some((len, point)) => if r9.len() == 0 {
                                                    Err(PErr { kind: ErrorKind::Eof, off: lm9 })
                                                } else {
                                                    let f = FieldLayoutV {
                                                        desc,
                                                        name_old,
                                                        name,
                                                        field_type,
                                                        len,
                                                        point,
                                                    };
                                                    if r9[0].text == ";"@ {
                                                        Ok(
                                                            (
                                                                f,
                                                                r9.drop_first(),
                                                                upd_mark(lm9, r9[0]),
                                                            ),
                                                        )
                                                    } else {
                                                        Ok((f, r9, lm9))
                                                    }
                                                },
                                            },
                                        },
                                    },
                                },
                            },
                        },
                    },
                },
            },
        },
    }
}

/// The field list of a block, closed by `end`.
pub open spec fn sp_fields(toks: Seq<TokG>, lm: int, acc: Seq<FieldLayoutV>) -> Result<
    (Seq<FieldLayoutV>, Seq<TokG>, int),
    PErr,
>
    decreases toks.len(),
    via sp_fields_decreases
{
    if toks.len() == 0 {
        Err(PErr { kind: ErrorKind::Eof, off: lm })
    } else if toks[0].text == "end"@ {
        Ok((acc, toks.drop_first(), upd_mark(lm, toks[0])))
    } else {
        match sp_field(toks, lm) {
            Err(e) => Err(e),
            Ok((f, r, lm1)) => sp_fields(r, lm1, acc.push(f)),
        }
    }
}

#[via_fn]
proof fn sp_fields_decreases(toks: Seq<TokG>, lm: int, acc: Seq<FieldLayoutV>) {
    if toks.len() != 0 && !(toks[0].text == "end"@) {
        if let Ok((f, r, lm1)) = sp_field(toks, lm) {
            assert(r.len() < toks.len());
        }
    }
}

/// One block declaration: a name matching the block-name pattern,
/// description, direction, parameters, then `begin`, the fields, `end`.
/// The recorded record width is the sum of the field extents; a sum
/// beyond `usize` is a data error.
pub open spec fn sp_block(toks: Seq<TokG>, lm: int, attr: bool) -> Result<
    (BlockLayoutV, Seq<TokG>, int),
    PErr,
> {
    match sp_next(toks, lm) {
        Err(e) => Err(e),
        Ok((name, r1, lm1)) => if !text::valid_block_name(name) {
            Err(PErr { kind: ErrorKind::Data, off: lm1 })
        } else {
            match sp_delim(r1, lm1) {
                Err(e) => Err(e),
                Ok((r2, lm2)) => match sp_next(r2, lm2) {
                    Err(e) => Err(e),
                    Ok((desc, r3, lm3)) => match sp_delim(r3, lm3) {
                        Err(e) => Err(e),
                        Ok((r4, lm4)) => match sp_next(r4, lm4) {
                            Err(e) => Err(e),
                            Ok((bt, r5, lm5)) => match block_type_of(bt) {
                                None => Err(PErr { kind: ErrorKind::Data, off: lm5 }),
                                Some(block_type) => match sp_block_params(r5, lm5, false) {
                                    Err(e) => Err(e),
                                    Ok((occurs, r6, lm6)) => match sp_next(r6, lm6) {
                                        Err(e) => Err(e),
                                        Ok((beg, r7, lm7)) => if beg != "begin"@ {
                                            Err(PErr { kind: ErrorKind::Syntax, off: lm7 })
                                        } else {
                                            match sp_fields(r7, lm7, Seq::empty()) {
                                                Err(e) => Err(e),
                                                Ok((fields, r8, lm8)) => {
                                                    let len = body_len(fields, attr);
                                                    if len > usize::MAX {
                                                        Err(
                                                            PErr {
                                                                kind: ErrorKind::Data,
                                                                off: lm8,
                                                            },
                                                        )
                                                    } else {
                                                        Ok(
                                                            (
                                                                BlockLayoutV {
                                                                    name,
                                                                    desc,
                                                                    block_type,
                                                                    occurs,
                                                                    len,
                                                                    fields,
                                                                },
                                                                r8,
                                                                lm8,
                                                            ),
                                                        )
                                                    }
                                                },
                                            }
                                        },
                                    },
                                },
                            },
                        },
                    },
                },
            }
        },
    }
}

/// The block list, closed by `END_DATA_MAP`; blocks are sorted into
/// request and response lists by their declared direction.
pub open spec fn sp_blocks(
    toks: Seq<TokG>,
    lm: int,
    attr: bool,
    ins: Seq<BlockLayoutV>,
    outs: Seq<BlockLayoutV>,
) -> Result<((Seq<BlockLayoutV>, Seq<BlockLayoutV>), Seq<TokG>, int), PErr>
    decreases toks.len(),
    via sp_blocks_decreases
{
    if toks.len() == 0 {
        Err(PErr { kind: ErrorKind::Eof, off: lm })
    } else if toks[0].text == "END_DATA_MAP"@ {
        Ok(((ins, outs), toks.drop_first(), upd_mark(lm, toks[0])))
    } else {
        match sp_block(toks, lm, attr) {
            Err(e) => Err(e),
            Ok((b, r, lm1)) => if b.block_type == BlockType::Input {
                sp_blocks(r, lm1, attr, ins.push(b), outs)
            } else {
                sp_blocks(r, lm1, attr, ins, outs.push(b))
            },
        }
    }
}

#[via_fn]
proof fn sp_blocks_decreases(
    toks: Seq<TokG>,
    lm: int,
    attr: bool,
    ins: Seq<BlockLayoutV>,
    outs: Seq<BlockLayoutV>,
) {
    if toks.len() != 0 && !(toks[0].text == "END_DATA_MAP"@) {
        if let Ok((b, r, lm1)) = sp_block(toks, lm, attr) {
            lemma_sp_block_consumes(toks, lm, attr);
        }
    }
}

/// A successful block parse consumes at least one symbol.
proof fn lemma_sp_block_consumes(toks: Seq<TokG>, lm: int, attr: bool)
    ensures
        sp_block(toks, lm, attr) is Ok ==> sp_block(toks, lm, attr)->Ok_0.1.len() < toks.len(),
{
    if sp_block(toks, lm, attr) is Ok {
        if let Ok((name, r1, lm1)) = sp_next(toks, lm) {
            if let Ok((r2, lm2)) = sp_delim(r1, lm1) {
                if let Ok((desc, r3, lm3)) = sp_next(r2, lm2) {
                    if let Ok((r4, lm4)) = sp_delim(r3, lm3) {
                        if let Ok((bt, r5, lm5)) = sp_next(r4, lm4) {
                            if let Ok((occurs, r6, lm6)) = sp_block_params(r5, lm5, false) {
                                lemma_sp_block_params_consumes(r5, lm5, false);
                                if let Ok((beg, r7, lm7)) = sp_next(r6, lm6) {
                                    lemma_sp_fields_consumes(r7, lm7, Seq::empty());
                                }
                            }
                        }
                    }
                }
            }
        }
    }
}

/// A parameter list never grows the symbol stream.
proof fn lemma_sp_block_params_consumes(toks: Seq<TokG>, lm: int, occurs: bool)
    ensures
        sp_block_params(toks, lm, occurs) is Ok ==> sp_block_params(toks, lm, occurs)->Ok_0.1.len()
            < toks.len(),
    decreases toks.len(),
{
    if sp_block_params(toks, lm, occurs) is Ok {
        if let Ok((t, r1, lm1)) = sp_next(toks, lm) {
            if t != ";"@ && t == ","@ {
                if let Ok((p, r2, lm2)) = sp_next(r1, lm1) {
                    if p == "occurs"@ {
                        lemma_sp_block_params_consumes(r2, lm2, true);
                    }
                }
            }
        }
    }
}

/// A field list always ends by consuming its `end`.
proof fn lemma_sp_fields_consumes(toks: Seq<TokG>, lm: int, acc: Seq<FieldLayoutV>)
    ensures
        sp_fields(toks, lm, acc) is Ok ==> sp_fields(toks, lm, acc)->Ok_0.1.len() < toks.len(),
    decreases toks.len(),
{
    if sp_fields(toks, lm, acc) is Ok {
        if toks.len() != 0 && !(toks[0].text == "end"@) {
            if let Ok((f, r, lm1)) = sp_field(toks, lm) {
                lemma_sp_fields_consumes(r, lm1, acc.push(f));
            }
        }
    }
}

/// A whole layout description: `BEGIN_FUNCTION_MAP`, TR type,
/// description and code, the parameter list, then `BEGIN_DATA_MAP`, the
/// blocks, `END_DATA_MAP`.  A real-time TR's code must be three
/// characters.
pub open spec fn sp_tr_layout(toks: Seq<TokG>, lm: int) -> Result<
    (TrLayoutV, Seq<TokG>, int),
    PErr,
> {
    match sp_next(toks, lm) {
        Err(e) => Err(e),
        Ok((kw, r1, lm1)) => if kw != "BEGIN_FUNCTION_MAP"@ {
            Err(PErr { kind: ErrorKind::Syntax, off: lm1 })
        } else {
            match sp_next(r1, lm1) {
                Err(e) => Err(e),
                Ok((tt, r2, lm2)) => match tr_type_of(tt) {
                    None => Err(PErr { kind: ErrorKind::Data, off: lm2 }),
                    Some(tr_type) => match sp_delim(r2, lm2) {
                        Err(e) => Err(e),
                        Ok((r3, lm3)) => match sp_next(r3, lm3) {
                            Err(e) => Err(e),
                            Ok((desc, r4, lm4)) => match sp_delim(r4, lm4) {
                                Err(e) => Err(e),
                                Ok((r5, lm5)) => match sp_next(r5, lm5) {
                                    Err(e) => Err(e),
                                    Ok((code, r6, lm6)) => if tr_type == TrType::Real
                                        && code.len() != 3 {
                                        Err(PErr { kind: ErrorKind::Data, off: lm6 })
                                    } else {
                                        let ps0 = TrParams {
                                            attr: false,
                                            block: false,
                                            header_type: None,
                                        };
                                        match sp_tr_params(r6, lm6, ps0) {
                                            Err(e) => Err(e),
                                            Ok((ps, r7, lm7)) => match sp_next(r7, lm7) {
                                                Err(e) => Err(e),
                                                Ok((dm, r8, lm8)) => if dm != "BEGIN_DATA_MAP"@ {
                                                    Err(PErr { kind: ErrorKind::Syntax, off: lm8 })
                                                } else {
                                                    match sp_blocks(
                                                        r8,
                                                        lm8,
                                                        ps.attr,
                                                        Seq::empty(),
                                                        Seq::empty(),
                                                    ) {
                                                        Err(e) => Err(e),
                                                        Ok(((ins, outs), r9, lm9)) => Ok(
                                                            (
                                                                TrLayoutV {
                                                                    tr_type,
                                                                    desc,
                                                                    code,
                                                                    attr: ps.attr,
                                                                    block: ps.block,
                                                                    header_type: ps.header_type,
                                                                    in_blocks: ins,
                                                                    out_blocks: outs,
                                                                },
                                                                r9,
                                                                lm9,
                                                            ),
                                                        ),
                                                    }
                                                },
                                            },
                                        }
                                    },
                                },
                            },
                        },
                    },
                },
            }
        },
    }
}

/// What [`load`] promises about an error it returns: the spec parser's
/// error kind, at that symbol's line and column.
pub open spec fn err_match(err: Error, s: Seq<char>, e: PErr) -> bool {
    &&& err.spec_kind() == e.kind
    &&& err.spec_line() == read::line_of(s, e.off)
    &&& err.spec_column() == read::col_of(s, e.off)
}

// ---------------------------------------------------------------------
// The parser itself.
// ---------------------------------------------------------------------

/// Consumes one symbol, or reports EOF at the last consumed one.
fn p_next<'a>(r: &mut StrRead<'a>) -> (res: Result<&'a str, Error>)
    requires
        old(r).spec_wf(),
    ensures
        final(r).spec_wf(),
        final(r).spec_src() == old(r).spec_src(),
        match sp_next(old(r).spec_rem(), old(r).spec_mark()) {
            Err(e) => {
                &&& res is Err
                &&& err_match(res->Err_0, old(r).spec_src(), e)
                &&& final(r).spec_rem() == old(r).spec_rem()
                &&& final(r).spec_mark() == old(r).spec_mark()
            },
            Ok((t, rest, lm)) => {
                &&& res is Ok
                &&& res->Ok_0@ == t
                &&& t.len() <= old(r).spec_src().len()
                &&& final(r).spec_rem() == rest
                &&& final(r).spec_mark() == lm
            },
        },
{
    let ghost s = r.spec_src();
    let ghost i = r.spec_cursor();
    let ghost pd = r.spec_prev_delim();
    proof {
        r.lemma_wf_bounds();
        read::lemma_token_list_unfold(s, i, pd);
        read::lemma_sym_step_props(s, i, pd);
    }
    match r.next_sym() {
        None => {
            let pos = r.position();
            Err(Error::new(pos, ErrorKind::Eof))
        },
        Some(t) => {
            proof {
                r.lemma_wf_bounds();
                read::lemma_token_list_unfold(s, r.spec_cursor(), r.spec_prev_delim());
            }
            Ok(t)
        },
    }
}

/// Looks at the next symbol without consuming it; EOF is an error here
/// too.
fn p_peek<'a>(r: &StrRead<'a>) -> (res: Result<&'a str, Error>)
    requires
        r.spec_wf(),
    ensures
        match sp_next(r.spec_rem(), r.spec_mark()) {
            Err(e) => res is Err && err_match(res->Err_0, r.spec_src(), e),
            Ok((t, _rest, _lm)) => res is Ok && res->Ok_0@ == t,
        },
{
    proof {
        r.lemma_wf_bounds();
        read::lemma_token_list_unfold(r.spec_src(), r.spec_cursor(), r.spec_prev_delim());
        read::lemma_sym_step_props(r.spec_src(), r.spec_cursor(), r.spec_prev_delim());
    }
    match r.peek_sym() {
        None => {
            let pos = r.position();
            Err(Error::new(pos, ErrorKind::Eof))
        },
        Some(t) => Ok(t),
    }
}

/// Consumes the `,` between two values.
fn p_delim(r: &mut StrRead<'_>) -> (res: Result<(), Error>)
    requires
        old(r).spec_wf(),
    ensures
        final(r).spec_wf(),
        final(r).spec_src() == old(r).spec_src(),
        match sp_delim(old(r).spec_rem(), old(r).spec_mark()) {
            Err(e) => res is Err && err_match(res->Err_0, old(r).spec_src(), e),
            Ok((rest, lm)) => {
                &&& res is Ok
                &&& final(r).spec_rem() == rest
                &&& final(r).spec_mark() == lm
            },
        },
{
    let t = p_next(r)?;
    if text::str_eq(t, ",") {
        Ok(())
    } else {
        let pos = r.position();
        if text::str_eq(t, ";") {
            Err(Error::new(pos, ErrorKind::Data))
        } else {
            Err(Error::new(pos, ErrorKind::Syntax))
        }
    }
}

/// The TR type keyword.
fn tr_type_x(t: &str) -> (r: Option<TrType>)
    ensures
        r == tr_type_of(t@),
{
    if text::str_eq(t, ".Func") || text::str_eq(t, "tr") {
        Some(TrType::Tr)
    } else if text::str_eq(t, ".Feed") || text::str_eq(t, "real") {
        Some(TrType::Real)
    } else {
        None
    }
}

/// The header type keyword.
fn header_type_x(t: &str) -> (r: Option<HeaderType>)
    ensures
        r == header_type_of(t@),
{
    if text::str_eq(t, "A") {
        Some(HeaderType::A)
    } else if text::str_eq(t, "B") {
        Some(HeaderType::B)
    } else if text::str_eq(t, "C") {
        Some(HeaderType::C)
    } else if text::str_eq(t, "D") {
        Some(HeaderType::D)
    } else {
        None
    }
}

/// The block type keyword.
fn block_type_x(t: &str) -> (r: Option<BlockType>)
    ensures
        r == block_type_of(t@),
{
    if text::str_eq(t, "input") {
        Some(BlockType::Input)
    } else if text::str_eq(t, "output") {
        Some(BlockType::Output)
    } else {
        None
    }
}

/// The field type keyword.
fn field_type_x(t: &str) -> (r: Option<FieldType>)
    ensures
        r == field_type_of(t@),
{
    if text::str_eq(t, "char") {
        Some(FieldType::Char)
    } else if text::str_eq(t, "date") {
        Some(FieldType::Date)
    } else if text::str_eq(t, "long") || text::str_eq(t, "int") {
        Some(FieldType::Int)
    } else if text::str_eq(t, "float") {
        Some(FieldType::Float)
    } else if text::str_eq(t, "double") {
        Some(FieldType::Double)
    } else {
        None
    }
}

/// Applies one TR header parameter to the gathered options.
fn apply_tr_param(t: &str, attr: bool, block: bool, ht: Option<HeaderType>) -> (r: Option<
    (bool, bool, Option<HeaderType>),
>)
    ensures
        match tr_param_apply(t@, TrParams { attr, block, header_type: ht }) {
            None => r is None,
            Some(q) => r == Some((q.attr, q.block, q.header_type)),
        },
{
    let n = t.unicode_len();
    proof {
        text::lemma_first_idx_of(t@, '=');
    }
    match text::find_char(t, '=') {
        Some(i) => {
            let key = t.substring_char(0, i);
            let val = t.substring_char(i + 1, n);
            if !text::all_alpha_x(key) {
                return None;
            }
            if let Some(_) = text::find_char(val, '=') {
                return None;
            }
            if text::str_eq(key, "headtype") {
                match header_type_x(val) {
                    Some(h) => Some((attr, block, Some(h))),
                    None => None,
                }
            } else if text::str_eq(key, "key") || text::str_eq(key, "group") {
                if text::is_uint_x(val) {
                    Some((attr, block, ht))
                } else {
                    None
                }
            } else if text::str_eq(key, "tuxcode") || text::str_eq(key, "svr") || text::str_eq(
                key,
                "SERVICE",
            ) || text::str_eq(key, "CREATOR") || text::str_eq(key, "CREDATE") {
                Some((attr, block, ht))
            } else {
                None
            }
        },
        None => {
            if text::str_eq(t, "attr") {
                Some((true, block, ht))
            } else if text::str_eq(t, "block") {
                Some((attr, true, ht))
            } else if text::str_eq(t, "ENCRYPT") || text::str_eq(t, "SIGNATURE") {
                Some((attr, block, ht))
            } else {
                None
            }
        },
    }
}

/// Reads the TR header's parameter list.
#[verifier::loop_isolation(false)]
fn parse_tr_params(r: &mut StrRead<'_>) -> (res: Result<(bool, bool, Option<HeaderType>), Error>)
    requires
        old(r).spec_wf(),
    ensures
        final(r).spec_wf(),
        final(r).spec_src() == old(r).spec_src(),
        match sp_tr_params(
            old(r).spec_rem(),
            old(r).spec_mark(),
            TrParams { attr: false, block: false, header_type: None },
        ) {
            Err(e) => res is Err && err_match(res->Err_0, old(r).spec_src(), e),
            Ok((ps, rest, lm)) => {
                &&& res == Ok::<_, Error>((ps.attr, ps.block, ps.header_type))
                &&& final(r).spec_rem() == rest
                &&& final(r).spec_mark() == lm
            },
        },
{
    let ghost s = r.spec_src();
    let ghost toks0 = r.spec_rem();
    let ghost lm0 = r.spec_mark();
    let mut attr = false;
    let mut block = false;
    let mut ht: Option<HeaderType> = None;
    loop
        invariant
            r.spec_wf(),
            r.spec_src() == s,
            sp_tr_params(toks0, lm0, TrParams { attr: false, block: false, header_type: None })
                == sp_tr_params(
                r.spec_rem(),
                r.spec_mark(),
                TrParams { attr, block, header_type: ht },
            ),
        decreases r.spec_rem().len(),
    {
        let t = p_next(r)?;
        if text::str_eq(t, ";") {
            return Ok((attr, block, ht));
        }
        if !text::str_eq(t, ",") {
            let pos = r.position();
            return Err(Error::new(pos, ErrorKind::Syntax));
        }
        let p = p_next(r)?;
        match apply_tr_param(p, attr, block, ht) {
            Some((a, b, h)) => {
                attr = a;
                block = b;
                ht = h;
            },
            None => {
                let pos = r.position();
                return Err(Error::new(pos, ErrorKind::Data));
            },
        }
    }
}

/// Reads a block's parameter list.
#[verifier::loop_isolation(false)]
fn parse_block_params(r: &mut StrRead<'_>) -> (res: Result<bool, Error>)
    requires
        old(r).spec_wf(),
    ensures
        final(r).spec_wf(),
        final(r).spec_src() == old(r).spec_src(),
        match sp_block_params(old(r).spec_rem(), old(r).spec_mark(), false) {
            Err(e) => res is Err && err_match(res->Err_0, old(r).spec_src(), e),
            Ok((occurs, rest, lm)) => {
                &&& res == Ok::<_, Error>(occurs)
                &&& final(r).spec_rem() == rest
                &&& final(r).spec_mark() == lm
            },
        },
{
    let ghost s = r.spec_src();
    let ghost toks0 = r.spec_rem();
    let ghost lm0 = r.spec_mark();
    let mut occurs = false;
    loop
        invariant
            r.spec_wf(),
            r.spec_src() == s,
            sp_block_params(toks0, lm0, false) == sp_block_params(
                r.spec_rem(),
                r.spec_mark(),
                occurs,
            ),
        decreases r.spec_rem().len(),
    {
        let t = p_next(r)?;
        if text::str_eq(t, ";") {
            return Ok(occurs);
        }
        if !text::str_eq(t, ",") {
            let pos = r.position();
            return Err(Error::new(pos, ErrorKind::Syntax));
        }
        let p = p_next(r)?;
        if text::str_eq(p, "occurs") {
            occurs = true;
        } else {
            let pos = r.position();
            return Err(Error::new(pos, ErrorKind::Data));
        }
    }
}

/// Reads a field's width: `uint` or `uint.uint`.
fn field_len_x(t: &str) -> (r: Option<(usize, Option<usize>)>)
    ensures
        match field_len_of(t@) {
            None => r is None,
            Some((len, point)) => {
                &&& r is Some
                &&& (r->0).0 == len
                &&& 0 <= len <= usize::MAX
                &&& match point {
                    None => (r->0).1 is None,
                    Some(p) => (r->0).1 == Some(p as usize) && 0 <= p <= usize::MAX,
                }
            },
        },
{
    let n = t.unicode_len();
    proof {
        text::lemma_first_idx_of(t@, '.');
        text::lemma_parse_usize_range(t@);
        if let Some(i) = text::first_idx_of(t@, '.') {
            text::lemma_parse_usize_range(t@.subrange(0, i));
            text::lemma_parse_usize_range(t@.subrange(i + 1, t@.len() as int));
        }
    }
    match text::find_char(t, '.') {
        None => {
            match text::parse_usize_x(t) {
                Some(v) => Some((v, None)),
                None => None,
            }
        },
        Some(i) => {
            let lstr = t.substring_char(0, i);
            let pstr = t.substring_char(i + 1, n);
            match (text::parse_usize_x(lstr), text::parse_usize_x(pstr)) {
                (Some(a), Some(b)) => Some((a, Some(b))),
                _ => None,
            }
        },
    }
}

/// Reads one field declaration.
fn parse_field(r: &mut StrRead<'_>) -> (res: Result<FieldLayout, Error>)
    requires
        old(r).spec_wf(),
    ensures
        final(r).spec_wf(),
        final(r).spec_src() == old(r).spec_src(),
        match sp_field(old(r).spec_rem(), old(r).spec_mark()) {
            Err(e) => res is Err && err_match(res->Err_0, old(r).spec_src(), e),
            Ok((f, rest, lm)) => {
                &&& res is Ok
                &&& res->Ok_0@ == f
                &&& final(r).spec_rem() == rest
                &&& final(r).spec_mark() == lm
            },
        },
{
    let desc = p_next(r)?;
    p_delim(r)?;
    let name_old = p_next(r)?;
    p_delim(r)?;
    let name = p_next(r)?;
    p_delim(r)?;
    let ft = p_next(r)?;
    let field_type = match field_type_x(ft) {
        Some(ft) => ft,
        None => {
            let pos = r.position();
            return Err(Error::new(pos, ErrorKind::Data));
        },
    };
    p_delim(r)?;
    let lt = p_next(r)?;
    let (len, point) = match field_len_x(lt) {
        Some(lp) => lp,
        None => {
            let pos = r.position();
            return Err(Error::new(pos, ErrorKind::Data));
        },
    };
    // The closing `;` is optional: some files leave it off before the
    // next field or before `end`.
    let nxt = p_peek(r)?;
    if text::str_eq(nxt, ";") {
        let _ = p_next(r);
    }
    Ok(
        FieldLayout {
            desc: desc.to_owned(),
            name_old: name_old.to_owned(),
            name: name.to_owned(),
            field_type,
            len,
            point,
        },
    )
}

/// Reads a block's field list up to its `end`.
#[verifier::loop_isolation(false)]
fn parse_fields(r: &mut StrRead<'_>) -> (res: Result<Vec<FieldLayout>, Error>)
    requires
        old(r).spec_wf(),
    ensures
        final(r).spec_wf(),
        final(r).spec_src() == old(r).spec_src(),
        match sp_fields(old(r).spec_rem(), old(r).spec_mark(), Seq::empty()) {
            Err(e) => res is Err && err_match(res->Err_0, old(r).spec_src(), e),
            Ok((fs, rest, lm)) => {
                &&& res is Ok
                &&& res->Ok_0@.map_values(|f: FieldLayout| f@) == fs
                &&& final(r).spec_rem() == rest
                &&& final(r).spec_mark() == lm
            },
        },
{
    let ghost s = r.spec_src();
    let ghost toks0 = r.spec_rem();
    let ghost lm0 = r.spec_mark();
    let mut fields: Vec<FieldLayout> = Vec::new();
    proof {
        assert(fields@.map_values(|f: FieldLayout| f@) =~= Seq::<FieldLayoutV>::empty());
    }
    loop
        invariant
            r.spec_wf(),
            r.spec_src() == s,
            sp_fields(toks0, lm0, Seq::empty()) == sp_fields(
                r.spec_rem(),
                r.spec_mark(),
                fields@.map_values(|f: FieldLayout| f@),
            ),
        decreases r.spec_rem().len(),
    {
        let nxt = p_peek(r)?;
        if text::str_eq(nxt, "end") {
            let _ = p_next(r);
            return Ok(fields);
        }
        let f = parse_field(r)?;
        let ghost before = fields@.map_values(|f: FieldLayout| f@);
        fields.push(f);
        proof {
            assert(fields@.map_values(|f: FieldLayout| f@) =~= before.push(f@));
        }
    }
}

/// Reads one block declaration.
#[verifier::loop_isolation(false)]
fn parse_block(r: &mut StrRead<'_>, attr: bool) -> (res: Result<BlockLayout, Error>)
    requires
        old(r).spec_wf(),
    ensures
        final(r).spec_wf(),
        final(r).spec_src() == old(r).spec_src(),
        match sp_block(old(r).spec_rem(), old(r).spec_mark(), attr) {
            Err(e) => res is Err && err_match(res->Err_0, old(r).spec_src(), e),
            Ok((b, rest, lm)) => {
                &&& res is Ok
                &&& res->Ok_0@ == b
                &&& wf_block(b, attr)
                &&& final(r).spec_rem() == rest
                &&& final(r).spec_mark() == lm
            },
        },
{
    let name = p_next(r)?;
    proof {
        r.lemma_wf_bounds();
    }
    if !text::check_block_name(name) {
        let pos = r.position();
        return Err(Error::new(pos, ErrorKind::Data));
    }
    p_delim(r)?;
    let desc = p_next(r)?;
    p_delim(r)?;
    let bt = p_next(r)?;
    let block_type = match block_type_x(bt) {
        Some(bt) => bt,
        None => {
            let pos = r.position();
            return Err(Error::new(pos, ErrorKind::Data));
        },
    };
    let occurs = parse_block_params(r)?;
    let beg = p_next(r)?;
    if !text::str_eq(beg, "begin") {
        let pos = r.position();
        return Err(Error::new(pos, ErrorKind::Syntax));
    }
    let fields = parse_fields(r)?;
    let ghost fvs = fields@.map_values(|f: FieldLayout| f@);
    // The record width of the block: the sum of the field extents.
    let mut total: usize = 0;
    let mut idx: usize = 0;
    while idx < fields.len()
        invariant
            idx <= fields.len(),
            fvs == fields@.map_values(|f: FieldLayout| f@),
            total == body_len(fvs.subrange(0, idx as int), attr),
            forall|k: int| 0 <= k < fvs.len() ==> wf_field(#[trigger] fvs[k]),
        decreases fields.len() - idx,
    {
        let fl = fields[idx].len;
        let ext: usize = if attr {
            if fl == usize::MAX {
                proof {
                    overflow_means_over_max(fvs, attr, idx as int);
                }
                let pos = r.position();
                return Err(Error::new(pos, ErrorKind::Data));
            }
            fl + 1
        } else {
            fl
        };
        if total > usize::MAX - ext {
            proof {
                overflow_means_over_max(fvs, attr, idx as int);
            }
            let pos = r.position();
            return Err(Error::new(pos, ErrorKind::Data));
        }
        proof {
            assert(fvs.subrange(0, idx + 1).drop_last() =~= fvs.subrange(0, idx as int));
            assert(fvs.subrange(0, idx + 1).last() == fvs[idx as int]);
        }
        total = total + ext;
        idx = idx + 1;
    }
    proof {
        assert(fvs.subrange(0, fvs.len() as int) =~= fvs);
    }
    Ok(
        BlockLayout {
            name: name.to_owned(),
            desc: desc.to_owned(),
            block_type,
            occurs,
            len: total,
            fields,
        },
    )
}

/// When the running extent sum leaves `usize`, the whole record width
/// does too.
proof fn overflow_means_over_max(fvs: Seq<FieldLayoutV>, attr: bool, idx: int)
    requires
        0 <= idx < fvs.len(),
        forall|k: int| 0 <= k < fvs.len() ==> wf_field(#[trigger] fvs[k]),
        body_len(fvs.subrange(0, idx), attr) + field_extent(fvs[idx], attr) > usize::MAX,
    ensures
        body_len(fvs, attr) > usize::MAX,
{
    assert(fvs.subrange(0, idx + 1).drop_last() =~= fvs.subrange(0, idx));
    assert(fvs.subrange(0, idx + 1).last() == fvs[idx]);
    lemma_body_len_prefix(fvs, attr, idx + 1, fvs.len() as int);
    assert(fvs.subrange(0, fvs.len() as int) =~= fvs);
}

/// Reads the block list up to `END_DATA_MAP`.
#[verifier::loop_isolation(false)]
fn parse_blocks(r: &mut StrRead<'_>, attr: bool) -> (res: Result<
    (Vec<BlockLayout>, Vec<BlockLayout>),
    Error,
>)
    requires
        old(r).spec_wf(),
    ensures
        final(r).spec_wf(),
        final(r).spec_src() == old(r).spec_src(),
        match sp_blocks(old(r).spec_rem(), old(r).spec_mark(), attr, Seq::empty(), Seq::empty()) {
            Err(e) => res is Err && err_match(res->Err_0, old(r).spec_src(), e),
            Ok(((ins, outs), rest, lm)) => {
                &&& res is Ok
                &&& res->Ok_0.0@.map_values(|b: BlockLayout| b@) == ins
                &&& res->Ok_0.1@.map_values(|b: BlockLayout| b@) == outs
                &&& forall|i: int| 0 <= i < ins.len() ==> wf_block(#[trigger] ins[i], attr)
                &&& forall|i: int| 0 <= i < outs.len() ==> wf_block(#[trigger] outs[i], attr)
                &&& final(r).spec_rem() == rest
                &&& final(r).spec_mark() == lm
            },
        },
{
    let ghost s = r.spec_src();
    let ghost toks0 = r.spec_rem();
    let ghost lm0 = r.spec_mark();
    let mut ins: Vec<BlockLayout> = Vec::new();
    let mut outs: Vec<BlockLayout> = Vec::new();
    proof {
        assert(ins@.map_values(|b: BlockLayout| b@) =~= Seq::<BlockLayoutV>::empty());
        assert(outs@.map_values(|b: BlockLayout| b@) =~= Seq::<BlockLayoutV>::empty());
    }
    loop
        invariant
            r.spec_wf(),
            r.spec_src() == s,
            sp_blocks(toks0, lm0, attr, Seq::empty(), Seq::empty()) == sp_blocks(
                r.spec_rem(),
                r.spec_mark(),
                attr,
                ins@.map_values(|b: BlockLayout| b@),
                outs@.map_values(|b: BlockLayout| b@),
            ),
            forall|i: int| 0 <= i < ins@.len() ==> wf_block((#[trigger] ins@[i])@, attr),
            forall|i: int| 0 <= i < outs@.len() ==> wf_block((#[trigger] outs@[i])@, attr),
        decreases r.spec_rem().len(),
    {
        let nxt = p_peek(r)?;
        if text::str_eq(nxt, "END_DATA_MAP") {
            let _ = p_next(r);
            return Ok((ins, outs));
        }
        proof {
            lemma_sp_block_consumes(r.spec_rem(), r.spec_mark(), attr);
        }
        let b = parse_block(r, attr)?;
        let is_input = match b.block_type {
            BlockType::Input => true,
            BlockType::Output => false,
        };
        if is_input {
            let ghost before = ins@.map_values(|b: BlockLayout| b@);
            ins.push(b);
            proof {
                assert(ins@.map_values(|b: BlockLayout| b@) =~= before.push(b@));
            }
        } else {
            let ghost before = outs@.map_values(|b: BlockLayout| b@);
            outs.push(b);
            proof {
                assert(outs@.map_values(|b: BlockLayout| b@) =~= before.push(b@));
            }
        }
    }
}

/// Parses one layout description text into a [`TrLayout`].
///
/// The result is exactly what the grammar functions of this module
/// describe for the text's symbol list: success and every error, with
/// the error's kind and position, are pinned down by [`sp_tr_layout`].
/// A returned layout is well formed in the sense of [`wf_tr`].
pub fn load(text: &str) -> (res: Result<TrLayout, Error>)
    requires
        text@.len() <= read::MAX_SRC_LEN,
    ensures
        match sp_tr_layout(read::token_list(text@, 0, false), 0) {
            Ok((tv, _rest, _lm)) => res is Ok && res->Ok_0@ == tv && wf_tr(tv),
            Err(e) => res is Err && err_match(res->Err_0, text@, e),
        },
{
    let mut r = StrRead::new(text);
    let kw = p_next(&mut r)?;
    if !text::str_eq(kw, "BEGIN_FUNCTION_MAP") {
        let pos = r.position();
        return Err(Error::new(pos, ErrorKind::Syntax));
    }
    let tt = p_next(&mut r)?;
    let tr_type = match tr_type_x(tt) {
        Some(tt) => tt,
        None => {
            let pos = r.position();
            return Err(Error::new(pos, ErrorKind::Data));
        },
    };
    p_delim(&mut r)?;
    let desc = p_next(&mut r)?;
    p_delim(&mut r)?;
    let code = p_next(&mut r)?;
    let is_real = match tr_type {
        TrType::Real => true,
        TrType::Tr => false,
    };
    if is_real && code.unicode_len() != 3 {
        let pos = r.position();
        return Err(Error::new(pos, ErrorKind::Data));
    }
    let (attr, block, header_type) = parse_tr_params(&mut r)?;
    let dm = p_next(&mut r)?;
    if !text::str_eq(dm, "BEGIN_DATA_MAP") {
        let pos = r.position();
        return Err(Error::new(pos, ErrorKind::Syntax));
    }
    let (in_blocks, out_blocks) = parse_blocks(&mut r, attr)?;
    Ok(
        TrLayout {
            tr_type,
            desc: desc.to_owned(),
            code: code.to_owned(),
            attr,
            block,
            header_type,
            in_blocks,
            out_blocks,
        },
    )
}

impl PartialEq for FieldLayout {
    /// Structural equality: every declared property matches.
    fn eq(&self, other: &FieldLayout) -> (r: bool) {
        let point_eq = match (self.point, other.point) {
            (Option::None, Option::None) => true,
            (Option::Some(a), Option::Some(b)) => a == b,
            _ => false,
        };
        let r = self.desc == other.desc && self.name_old == other.name_old && self.name
            == other.name && self.field_type == other.field_type && self.len == other.len
            && point_eq;
        proof {
            if r {
                assert(self@ == other@);
            }
        }
        r
    }
}

impl vstd::std_specs::cmp::PartialEqSpecImpl for FieldLayout {
    open spec fn obeys_eq_spec() -> bool {
        true
    }

    open spec fn eq_spec(&self, other: &FieldLayout) -> bool {
        self@ == other@
    }
}

/// Structural equality of two field lists.
fn fields_eq(a: &Vec<FieldLayout>, b: &Vec<FieldLayout>) -> (r: bool)
    ensures
        r == (a@.map_values(|f: FieldLayout| f@) == b@.map_values(|f: FieldLayout| f@)),
{
    if a.len() != b.len() {
        assert(a@.map_values(|f: FieldLayout| f@).len() != b@.map_values(
            |f: FieldLayout| f@,
        ).len());
        return false;
    }
    let n = a.len();
    let mut i: usize = 0;
    while i < n
        invariant
            n == a@.len(),
            n == b@.len(),
            i <= n,
            forall|j: int| 0 <= j < i ==> (#[trigger] a@[j])@ == b@[j]@,
        decreases n - i,
    {
        let fa = &a[i];
        let fb = &b[i];
        if !(fa == fb) {
            assert(a@.map_values(|f: FieldLayout| f@)[i as int] != b@.map_values(
                |f: FieldLayout| f@,
            )[i as int]);
            return false;
        }
        i = i + 1;
    }
    proof {
        assert(a@.map_values(|f: FieldLayout| f@) =~= b@.map_values(|f: FieldLayout| f@));
    }
    true
}

impl PartialEq for BlockLayout {
    /// Structural equality: name, description, direction, shape, width
    /// and every field match.
    fn eq(&self, other: &BlockLayout) -> (r: bool) {
        let r = self.name == other.name && self.desc == other.desc && self.block_type
            == other.block_type && self.occurs == other.occurs && self.len == other.len
            && fields_eq(&self.fields, &other.fields);
        proof {
            if r {
                assert(self@ == other@);
            }
        }
        r
    }
}

impl vstd::std_specs::cmp::PartialEqSpecImpl for BlockLayout {
    open spec fn obeys_eq_spec() -> bool {
        true
    }

    open spec fn eq_spec(&self, other: &BlockLayout) -> bool {
        self@ == other@
    }
}

/// Structural equality of two block lists.
fn blocks_eq(a: &Vec<BlockLayout>, b: &Vec<BlockLayout>) -> (r: bool)
    ensures
        r == (a@.map_values(|x: BlockLayout| x@) == b@.map_values(|x: BlockLayout| x@)),
{
    if a.len() != b.len() {
        assert(a@.map_values(|x: BlockLayout| x@).len() != b@.map_values(
            |x: BlockLayout| x@,
        ).len());
        return false;
    }
    let n = a.len();
    let mut i: usize = 0;
    while i < n
        invariant
            n == a@.len(),
            n == b@.len(),
            i <= n,
            forall|j: int| 0 <= j < i ==> (#[trigger] a@[j])@ == b@[j]@,
        decreases n - i,
    {
        let ba = &a[i];
        let bb = &b[i];
        if !(ba == bb) {
            assert(a@.map_values(|x: BlockLayout| x@)[i as int] != b@.map_values(
                |x: BlockLayout| x@,
            )[i as int]);
            return false;
        }
        i = i + 1;
    }
    proof {
        assert(a@.map_values(|x: BlockLayout| x@) =~= b@.map_values(|x: BlockLayout| x@));
    }
    true
}

impl PartialEq for TrLayout {
    /// Structural equality: the whole parsed layout matches, block by
    /// block and field by field.
    fn eq(&self, other: &TrLayout) -> (r: bool) {
        let ht_eq = match (self.header_type, other.header_type) {
            (Option::None, Option::None) => true,
            (Option::Some(a), Option::Some(b)) => a == b,
            _ => false,
        };
        let r = self.tr_type == other.tr_type && self.desc == other.desc && self.code
            == other.code && self.attr == other.attr && self.block == other.block && ht_eq
            && blocks_eq(&self.in_blocks, &other.in_blocks) && blocks_eq(
            &self.out_blocks,
            &other.out_blocks,
        );
        proof {
            if r {
                assert(self@ == other@);
            }
        }
        r
    }
}

impl vstd::std_specs::cmp::PartialEqSpecImpl for TrLayout {
    open spec fn obeys_eq_spec() -> bool {
        true
    }

    open spec fn eq_spec(&self, other: &TrLayout) -> bool {
        self@ == other@
    }
}

} // verus!
