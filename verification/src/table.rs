//! The layout table: all loaded TR layouts, keyed by TR code.
//!
//! A directory of layout descriptions is parsed file by file; the parsed
//! layouts are then merged here.  Two files may declare the same code
//! only when they declare the very same layout — anything else is a
//! conflict and the whole merge fails.

use vstd::prelude::*;

use crate::layout::{TrLayout, TrLayoutV};
use crate::text;

verus! {

/// The map an entry list stands for, keyed by TR code.
pub open spec fn table_map(es: Seq<TrLayout>) -> Map<Seq<char>, TrLayoutV>
    decreases es.len(),
{
    if es.len() == 0 {
        Map::empty()
    } else {
        table_map(es.drop_last()).insert(es.last()@.code, es.last()@)
    }
}

/// All loaded layouts, looked up by TR code.
#[derive(Clone, Debug)]
pub struct LayoutTable {
    entries: Vec<TrLayout>,
}

impl View for LayoutTable {
    type V = Map<Seq<char>, TrLayoutV>;

    closed spec fn view(&self) -> Map<Seq<char>, TrLayoutV> {
        table_map(self.entries@)
    }
}

impl LayoutTable {
    /// An empty table.
    pub fn new() -> (r: LayoutTable)
        ensures
            r@ == Map::<Seq<char>, TrLayoutV>::empty(),
    {
        LayoutTable { entries: Vec::new() }
    }

    /// Number of layouts held.
    pub fn len(&self) -> (r: usize)
        ensures
            r == self.spec_len(),
    {
        self.entries.len()
    }

    /// Number of layouts held.
    pub closed spec fn spec_len(&self) -> int {
        self.entries@.len() as int
    }

    /// Adds a layout under its code, replacing any held one.
    pub fn insert(&mut self, l: TrLayout)
        ensures
            final(self)@ == old(self)@.insert(l@.code, l@),
    {
        let ghost es = self.entries@;
        self.entries.push(l);
        proof {
            assert(self.entries@.drop_last() =~= es);
        }
    }

    /// The layout stored under `code`, if any.
    pub fn get(&self, code: &str) -> (r: Option<&TrLayout>)
        ensures
            match r {
                Some(l) => self@.contains_key(code@) && self@[code@] == l@ && l@.code == code@,
                None => !self@.contains_key(code@),
            },
    {
        let ghost es = self.entries@;
        let mut i = self.entries.len();
        proof {
            assert(es.subrange(0, i as int) =~= es);
        }
        while i > 0
            invariant
                i <= es.len(),
                es == self.entries@,
                table_map(es).contains_key(code@) == table_map(
                    es.subrange(0, i as int),
                ).contains_key(code@),
                table_map(es.subrange(0, i as int)).contains_key(code@) ==> table_map(
                    es.subrange(0, i as int),
                )[code@] == table_map(es)[code@],
            decreases i,
        {
            i = i - 1;
            proof {
                assert(es.subrange(0, i + 1).drop_last() =~= es.subrange(0, i as int));
                assert(es.subrange(0, i + 1).last() == es[i as int]);
            }
            if text::str_eq(self.entries[i].code.as_str(), code) {
                return Some(&self.entries[i]);
            }
        }
        proof {
            assert(es.subrange(0, 0) =~= Seq::<TrLayout>::empty());
        }
        None
    }
}

/// Two layouts in the list declare the same code but not the same
/// layout.
pub open spec fn has_conflict(ls: Seq<TrLayoutV>) -> bool {
    exists|i: int, j: int|
        0 <= i < j < ls.len() && (#[trigger] ls[i]).code == (#[trigger] ls[j]).code && ls[i]
            != ls[j]
}

/// What a merged table holds for its input list: every input layout
/// under its code, and nothing else.
pub open spec fn is_merged_table(ls: Seq<TrLayoutV>, t: Map<Seq<char>, TrLayoutV>) -> bool {
    &&& forall|i: int|
        0 <= i < ls.len() ==> t.contains_key((#[trigger] ls[i]).code) && t[ls[i].code] == ls[i]
    &&& forall|k: Seq<char>|
        #[trigger] t.contains_key(k) ==> exists|i: int| 0 <= i < ls.len() && ls[i].code == k
}

/// Merges parsed layouts into one table.  Layouts with the same code
/// must be structurally equal; a conflicting code is returned as the
/// error.  The merge succeeds exactly when the list has no conflict.
#[verifier::loop_isolation(false)]
pub fn merge_layouts(layouts: Vec<TrLayout>) -> (res: Result<LayoutTable, String>)
    ensures
        res is Ok <==> !has_conflict(layouts@.map_values(|l: TrLayout| l@)),
        match res {
            Ok(t) => is_merged_table(layouts@.map_values(|l: TrLayout| l@), t@),
            Err(code) => exists|i: int|
                0 <= i < layouts@.len() && (#[trigger] layouts@[i])@.code == code@,
        },
{
    let ghost lvs = layouts@.map_values(|l: TrLayout| l@);
    let mut rest = layouts;
    let mut table = LayoutTable::new();
    proof {
        assert(rest@ =~= layouts@.subrange(0, rest@.len() as int));
    }
    loop
        invariant
            rest@.len() <= lvs.len(),
            rest@ == layouts@.subrange(0, rest@.len() as int),
            lvs == layouts@.map_values(|l: TrLayout| l@),
            forall|i: int|
                rest@.len() <= i < lvs.len() ==> table@.contains_key((#[trigger] lvs[i]).code)
                    && table@[lvs[i].code] == lvs[i],
            forall|k: Seq<char>|
                #[trigger] table@.contains_key(k) ==> exists|i: int|
                    rest@.len() <= i < lvs.len() && (#[trigger] lvs[i]).code == k && lvs[i]
                        == table@[k],
        decreases rest@.len(),
    {
        if rest.len() == 0 {
            break;
        }
        let ghost m = rest@.len() - 1;
        let l = match rest.pop() {
            Some(l) => l,
            None => {
                assert(false);
                break;
            },
        };
        proof {
            assert(rest@ =~= layouts@.subrange(0, rest@.len() as int));
            assert(l@ == lvs[m]);
        }
        match table.get(l.code.as_str()) {
            Some(held) => {
                let same = held == &l;
                if !same {
                    // Two different layouts under one code: report it.
                    proof {
                        let i = choose|i: int|
                            m + 1 <= i < lvs.len() && (#[trigger] lvs[i]).code == l@.code && lvs[i]
                                == table@[l@.code];
                        assert(lvs[m].code == lvs[i].code && lvs[m] != lvs[i]);
                        assert(has_conflict(lvs));
                    }
                    return Err(l.code);
                }
                // The same layout twice: keep the one already held.
            },
            None => {
                table.insert(l);
                proof {
                    assert forall|k: Seq<char>| #[trigger] table@.contains_key(k) implies exists|
                        i: int,
                    |
                        m <= i < lvs.len() && (#[trigger] lvs[i]).code == k && lvs[i]
                            == table@[k] by {
                        if k == lvs[m].code {
                            assert(lvs[m].code == k && lvs[m] == table@[k]);
                        }
                    }
                }
            },
        }
    }
    proof {
        if has_conflict(lvs) {
            let (i, j) = choose|i: int, j: int|
                0 <= i < j < lvs.len() && (#[trigger] lvs[i]).code == (#[trigger] lvs[j]).code
                    && lvs[i] != lvs[j];
            assert(lvs[i] == table@[lvs[i].code]);
            assert(lvs[j] == table@[lvs[j].code]);
            assert(false);
        }
    }
    Ok(table)
}

/// Merging is deterministic in the set of layouts: two merges over
/// lists with the same members yield the same table, whatever order
/// the files were read in.  Loading the same directory twice therefore
/// yields structurally equal tables.
pub proof fn lemma_merge_deterministic(
    ls1: Seq<TrLayoutV>,
    ls2: Seq<TrLayoutV>,
    t1: Map<Seq<char>, TrLayoutV>,
    t2: Map<Seq<char>, TrLayoutV>,
)
    requires
        is_merged_table(ls1, t1),
        is_merged_table(ls2, t2),
        forall|x: TrLayoutV| ls1.contains(x) <==> ls2.contains(x),
        !has_conflict(ls1),
    ensures
        t1 == t2,
{
    assert forall|k: Seq<char>| #[trigger] t1.contains_key(k) implies t2.contains_key(k) && t2[k]
        == t1[k] by {
        let i = choose|i: int| 0 <= i < ls1.len() && (#[trigger] ls1[i]).code == k;
        assert(ls1.contains(ls1[i]));
        assert(ls2.contains(ls1[i]));
        let j = choose|j: int| 0 <= j < ls2.len() && ls2[j] == ls1[i];
        assert(t2.contains_key(ls2[j].code) && t2[ls2[j].code] == ls2[j]);
        assert(t1[k] == ls1[i]);
    }
    assert forall|k: Seq<char>| #[trigger] t2.contains_key(k) implies t1.contains_key(k) by {
        let j = choose|j: int| 0 <= j < ls2.len() && (#[trigger] ls2[j]).code == k;
        assert(ls2.contains(ls2[j]));
        assert(ls1.contains(ls2[j]));
        let i = choose|i: int| 0 <= i < ls1.len() && ls1[i] == ls2[j];
        assert(t1.contains_key(ls1[i].code));
    }
    assert(t1 =~= t2);
}

} // verus!
