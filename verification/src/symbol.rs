//! The nested payload handed to the adapter: a forest of document symbols,
//! each carrying a name, a kind tag, a source range and its child symbols.

use vstd::prelude::*;

verus! {

/// A source-location range: start and end positions, each a zero-based line
/// and character pair, as a document outline reports them.
#[derive(Clone, Copy, PartialEq, Eq, Structural, Debug)]
pub struct SymbolRange {
    pub start_line: u32,
    pub start_character: u32,
    pub end_line: u32,
    pub end_character: u32,
}

/// What one outline entry says about itself: a display name, a numeric kind
/// tag, and the source range it covers.
#[derive(Debug)]
pub struct SymbolInfo {
    pub name: String,
    pub kind: u32,
    pub range: SymbolRange,
}

/// The mathematical value of a [`SymbolInfo`]: the name as a character
/// sequence beside the plain fields.
pub struct SymbolInfoView {
    pub name: Seq<char>,
    pub kind: u32,
    pub range: SymbolRange,
}

impl View for SymbolInfo {
    type V = SymbolInfoView;

    open spec fn view(&self) -> SymbolInfoView {
        SymbolInfoView { name: self.name@, kind: self.kind, range: self.range }
    }
}

/// One node of the nested outline payload: its own info and the inline,
/// ordered list of child nodes.
#[derive(Debug)]
pub struct Symbol {
    pub info: SymbolInfo,
    pub children: Vec<Symbol>,
}

/// The pre-order flattening of one symbol: the symbol itself, then the
/// flattening of each child in order.
pub open spec fn flat_one(s: Symbol) -> Seq<SymbolInfoView>
    decreases s,
{
    seq![s.info@] + flat_list(s.children@)
}

/// The pre-order flattening of a symbol forest, root by root.
pub open spec fn flat_list(ss: Seq<Symbol>) -> Seq<SymbolInfoView>
    decreases ss,
{
    if ss.len() == 0 {
        Seq::empty()
    } else {
        flat_list(ss.drop_last()) + flat_one(ss.last())
    }
}

/// Peeling one root off the front of a flattened forest.
pub proof fn lemma_flat_list_take_step(ss: Seq<Symbol>, k: int)
    requires
        0 <= k < ss.len(),
    ensures
        flat_list(ss.take(k + 1)) == flat_list(ss.take(k)) + flat_one(ss[k]),
{
    let t = ss.take(k + 1);
    assert(t.drop_last() =~= ss.take(k));
    assert(t.last() == ss[k]);
}

/// Append the pre-order flattening of one symbol's subtree to `list`: the
/// symbol itself, then each child's subtree in order.
pub fn nested_to_flat(list: &mut Vec<SymbolInfo>, symbol: &Symbol)
    ensures
        final(list)@.len() == old(list)@.len() + flat_one(*symbol).len(),
        final(list)@.subrange(0, old(list)@.len() as int) == old(list)@,
        forall|t: int|
            old(list)@.len() <= t < final(list)@.len() ==> (#[trigger] final(list)@[t])@
                == flat_one(*symbol)[t - old(list)@.len()],
    decreases *symbol,
{
    let a = list.len();
    let ghost list0 = list@;
    list.push(
        SymbolInfo {
            name: symbol.info.name.clone(),
            kind: symbol.info.kind,
            range: symbol.info.range,
        },
    );
    proof {
        assert(list@.subrange(0, a as int) =~= list0);
    }
    let mut j: usize = 0;
    while j < symbol.children.len()
        invariant
            a == list0.len(),
            j <= symbol.children@.len(),
            list@.len() == a + 1 + flat_list(symbol.children@.take(j as int)).len(),
            list@.subrange(0, a as int) == list0,
            list@[a as int]@ == symbol.info@,
            forall|t: int|
                a < t < list@.len() ==> (#[trigger] list@[t])@ == flat_list(
                    symbol.children@.take(j as int),
                )[t - (a + 1)],
        decreases symbol.children@.len() - j,
    {
        let ghost list_pre = list@;
        let ghost b = list@.len() as int;
        proof {
            assert(decreases_to!(*symbol => symbol.children@[j as int]));
        }
        nested_to_flat(list, &symbol.children[j]);
        proof {
            let child = symbol.children@[j as int];
            lemma_flat_list_take_step(symbol.children@, j as int);
            assert forall|t: int| 0 <= t < b implies list@[t] == list_pre[t] by {
                assert(list@.subrange(0, b)[t] == list_pre[t]);
            }
            assert(list@.subrange(0, a as int) =~= list0);
            assert forall|t: int| a < t < list@.len() implies (#[trigger] list@[t])@ == flat_list(
                symbol.children@.take(j as int + 1),
            )[t - (a + 1)] by {
                let pre = flat_list(symbol.children@.take(j as int));
                assert(flat_list(symbol.children@.take(j as int + 1)) == pre + flat_one(child));
                if t < b {
                    assert(list_pre[t]@ == pre[t - (a + 1)]);
                } else {
                    assert(list@[t]@ == flat_one(child)[t - b]);
                }
            }
        }
        j += 1;
    }
    proof {
        assert(symbol.children@.take(j as int) =~= symbol.children@);
        assert(flat_one(*symbol) == seq![symbol.info@] + flat_list(symbol.children@));
    }
}

/// Flatten a whole nested symbol forest to the list its pre-order walk
/// visits, root subtree by root subtree.
pub fn flatten_symbols(symbols: &Vec<Symbol>) -> (list: Vec<SymbolInfo>)
    ensures
        list@.len() == flat_list(symbols@).len(),
        forall|t: int|
            0 <= t < list@.len() ==> (#[trigger] list@[t])@ == flat_list(symbols@)[t],
{
    let mut list: Vec<SymbolInfo> = Vec::new();
    let mut k: usize = 0;
    while k < symbols.len()
        invariant
            k <= symbols@.len(),
            list@.len() == flat_list(symbols@.take(k as int)).len(),
            forall|t: int|
                0 <= t < list@.len() ==> (#[trigger] list@[t])@ == flat_list(
                    symbols@.take(k as int),
                )[t],
        decreases symbols@.len() - k,
    {
        let ghost list_pre = list@;
        let ghost b = list@.len() as int;
        nested_to_flat(&mut list, &symbols[k]);
        proof {
            let sym = symbols@[k as int];
            lemma_flat_list_take_step(symbols@, k as int);
            assert forall|t: int| 0 <= t < list@.len() implies (#[trigger] list@[t])@ == flat_list(
                symbols@.take(k as int + 1),
            )[t] by {
                let pre = flat_list(symbols@.take(k as int));
                assert(flat_list(symbols@.take(k as int + 1)) == pre + flat_one(sym));
                if t < b {
                    assert(list@.subrange(0, b)[t] == list_pre[t]);
                } else {
                    assert(list@[t]@ == flat_one(sym)[t - b]);
                }
            }
        }
        k += 1;
    }
    proof {
        assert(symbols@.take(k as int) =~= symbols@);
    }
    list
}

} // verus!
