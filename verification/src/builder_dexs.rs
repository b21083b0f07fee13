//! Which builder DEXs a market metadata store fetches.

use vstd::prelude::*;
use crate::meta::PerpDex;
use crate::text::{trim, trimmed};

verus! {

/// Which builder DEXs a store fetches.
#[derive(Debug, Clone)]
pub enum MarketMetaStoreDexs {
    NoBuilderDexs,
    All,
    Selected(Vec<String>),
}

impl Default for MarketMetaStoreDexs {
    fn default() -> (r: Self)
        ensures
            r is NoBuilderDexs,
    {
        MarketMetaStoreDexs::NoBuilderDexs
    }
}

/// Whether a DEX listed at `index` with `dex` is fetched: not the main DEX
/// (index 0), listed, with a non-blank name, and selected.
pub open spec fn dex_selected(index: int, dex: Option<PerpDex>, dexs: MarketMetaStoreDexs) -> bool {
    &&& index != 0
    &&& dex is Some
    &&& trim(dex->0.name@).len() > 0
    &&& match dexs {
        MarketMetaStoreDexs::NoBuilderDexs => false,
        MarketMetaStoreDexs::All => true,
        MarketMetaStoreDexs::Selected(names) => names@.map_values(|s: String| s@).contains(dex->0.name@),
    }
}

/// The builder DEXs to fetch among `perp_dexs`: their listing index and
/// name, in listing order.
pub open spec fn selected_dexs(perp_dexs: Seq<Option<PerpDex>>, dexs: MarketMetaStoreDexs) -> Seq<(usize, Seq<char>)>
    decreases perp_dexs.len(),
{
    if perp_dexs.len() == 0 {
        Seq::empty()
    } else {
        let i = perp_dexs.len() - 1;
        let prev = selected_dexs(perp_dexs.drop_last(), dexs);
        if dex_selected(i, perp_dexs[i], dexs) {
            prev.push((i as usize, perp_dexs[i]->0.name@))
        } else {
            prev
        }
    }
}

/// Whether `name` is among `names`.
fn names_contain(names: &Vec<String>, name: &String) -> (r: bool)
    ensures
        r == names@.map_values(|s: String| s@).contains(name@),
{
    let mut i: usize = 0;
    while i < names.len()
        invariant
            i <= names@.len(),
            forall|j: int| 0 <= j < i ==> names@[j]@ != name@,
        decreases names@.len() - i,
    {
        if names[i] == *name {
            assert(names@.map_values(|s: String| s@)[i as int] == name@);
            return true;
        }
        i = i + 1;
    }
    proof {
        let v = names@.map_values(|s: String| s@);
        if v.contains(name@) {
            let j = choose|j: int| 0 <= j < v.len() && v[j] == name@;
            assert(names@[j]@ == name@);
        }
    }
    false
}

/// The builder DEXs that a store fetches, with their listing index: none
/// for `None`, otherwise every listed DEX after the first whose name is not
/// blank and, for `Selected`, is one of the names given.
pub fn select_builder_dexs(perp_dexs: &Vec<Option<PerpDex>>, dexs: &MarketMetaStoreDexs) -> (r: Vec<(usize, String)>)
    ensures
        r@.map_values(|e: (usize, String)| (e.0, e.1@)) == selected_dexs(perp_dexs@, *dexs),
{
    let mut out: Vec<(usize, String)> = Vec::new();
    let mut index: usize = 0;
    while index < perp_dexs.len()
        invariant
            index <= perp_dexs@.len(),
            out@.map_values(|e: (usize, String)| (e.0, e.1@)) == selected_dexs(perp_dexs@.take(index as int), *dexs),
        decreases perp_dexs@.len() - index,
    {
        proof {
            let p = perp_dexs@;
            assert(p.take(index + 1).drop_last() =~= p.take(index as int));
            assert(p.take(index + 1)[index as int] == p[index as int]);
        }
        let ghost before = out@.map_values(|e: (usize, String)| (e.0, e.1@));
        if index != 0 {
            match &perp_dexs[index] {
                Some(dex) => {
                    if !trimmed(dex.name.as_str()).is_empty() {
                        let chosen = match dexs {
                            MarketMetaStoreDexs::NoBuilderDexs => false,
                            MarketMetaStoreDexs::All => true,
                            MarketMetaStoreDexs::Selected(names) => names_contain(names, &dex.name),
                        };
                        if chosen {
                            out.push((index, dex.name.clone()));
                            assert(out@.map_values(|e: (usize, String)| (e.0, e.1@)) =~= before.push((index, dex.name@)));
                        }
                    }
                },
                None => {},
            }
        }
        index = index + 1;
    }
    assert(perp_dexs@.take(perp_dexs@.len() as int) =~= perp_dexs@);
    out
}

} // verus!
