use vstd::prelude::*;
use crate::common::Width;
use crate::nodes::{AddrV, Address, AddressConstant, Ssa, ToplevelDeclaration, ToplevelItem};

verus! {

broadcast use vstd::seq_lib::lemma_seq_contains_after_push;

/// What a symbol resolves to at link time.
#[derive(Debug, Clone)]
pub enum SymbolAddress {
    VariableOffset(usize),
    StringLiteral(usize),
    SourceFunction(String),
}

impl SymbolAddress {
    /// The frame offset of a variable; `None` for any other symbol.
    pub fn offset(&self) -> (r: Option<i64>)
        ensures
            match self {
                SymbolAddress::VariableOffset(v) => *v <= i64::MAX ==> r == Some(*v as i64),
                _ => r is None,
            },
    {
        match self {
            SymbolAddress::VariableOffset(vo) => {
                let v = *vo as u64;
                if v <= 9223372036854775807u64 { Some(v as i64) } else { None }
            },
            _ => None,
        }
    }
}

#[derive(Debug, Clone)]
pub struct SymbolInfo {
    pub address: SymbolAddress,
    pub width: Width,
}

/// A table from addresses to link-time symbols.
#[derive(Debug, Clone)]
pub struct SymbolLookup {
    lookup: Vec<(Address, SymbolInfo)>,
}

/// The string literals assigned anywhere in the functions of `unit`, in order of
/// appearance, repeats included.
pub open spec fn literals_of(unit: Seq<ToplevelItem>) -> Seq<Seq<char>>
    decreases unit.len(),
{
    if unit.len() == 0 {
        Seq::empty()
    } else {
        literals_of(unit.drop_last()) + match unit.last() {
            ToplevelItem::Function(f) => body_literals(f.body@),
            _ => Seq::empty(),
        }
    }
}

pub open spec fn body_literals(b: Seq<Ssa>) -> Seq<Seq<char>>
    decreases b.len(),
{
    if b.len() == 0 {
        Seq::empty()
    } else {
        body_literals(b.drop_last()) + match b.last() {
            Ssa::Assignment { source: Address::Constant(AddressConstant::StringLiteral(s)), .. } => seq![s@],
            _ => Seq::empty(),
        }
    }
}

impl SymbolLookup {
    pub closed spec fn entries(&self) -> Seq<(Address, SymbolInfo)> {
        self.lookup@
    }

    /// Each address has at most one entry, and string literal ids are distinct.
    pub open spec fn wf(&self) -> bool {
        &&& forall|i: int, j: int| 0 <= i < j < self.entries().len() ==> (#[trigger] self.entries()[i]).0.deep_view()
            != (#[trigger] self.entries()[j]).0.deep_view()
        &&& forall|i: int, j: int| 0 <= i < self.entries().len() && 0 <= j < self.entries().len() && i != j
            && (#[trigger] self.entries()[i]).1.address is StringLiteral && (#[trigger] self.entries()[j]).1.address is StringLiteral
            ==> self.entries()[i].1.address->StringLiteral_0 != self.entries()[j].1.address->StringLiteral_0
        &&& forall|i: int| 0 <= i < self.entries().len() ==> ((#[trigger] self.entries()[i]).1.address is StringLiteral
            <==> self.entries()[i].0.deep_view() is Str)
    }

    /// The entry recorded for `key`.
    pub fn get(&self, key: &Address) -> (r: Option<&SymbolInfo>)
        ensures
            match r {
                Some(info) => exists|i: int| 0 <= i < self.entries().len() && (#[trigger] self.entries()[i]).0.deep_view() == key.deep_view() && self.entries()[i].1 == *info,
                None => forall|i: int| 0 <= i < self.entries().len() ==> (#[trigger] self.entries()[i]).0.deep_view() != key.deep_view(),
            },
    {
        let mut i: usize = 0;
        while i < self.lookup.len()
            invariant
                i <= self.entries().len(),
                forall|t: int| 0 <= t < i ==> (#[trigger] self.entries()[t]).0.deep_view() != key.deep_view(),
            decreases self.entries().len() - i,
        {
            if self.lookup[i].0.same(key) {
                return Some(&self.lookup[i].1);
            }
            i += 1;
        }
        None
    }

    /// The symbol table of a translation unit: every function under its own name,
    /// and every distinct string literal with an id, numbered from 0 in order of
    /// first appearance.
    /// (A table that reached `usize::MAX - 1` entries takes no more literals.)
    pub fn global_from_unit(toplevels: &[ToplevelItem]) -> (r: SymbolLookup)
        ensures
            r.wf(),
            r.entries().len() < usize::MAX - 1 ==> forall|i: int| 0 <= i < literals_of(toplevels@).len() ==> has_literal(r.entries(), #[trigger] literals_of(toplevels@)[i]),
            r.entries().len() < usize::MAX - 1 ==> forall|i: int| 0 <= i < toplevels@.len() ==> has_function(r.entries(), item_name(#[trigger] toplevels@[i])),
            global_shape(r.entries()),
    {
        let mut table = SymbolLookup { lookup: Vec::new() };
        let mut count: usize = 0;
        let mut t: usize = 0;
        while t < toplevels.len()
            invariant
                t <= toplevels@.len(),
                table.wf(),
                global_shape(table.entries()),
                count as int == number_of_literals(table.entries()),
                forall|i: int| 0 <= i < table.entries().len() && (#[trigger] table.entries()[i]).1.address is StringLiteral
                    ==> table.entries()[i].1.address->StringLiteral_0 < count,
                table.entries().len() < usize::MAX - 1 ==> forall|i: int| 0 <= i < literals_of(toplevels@.subrange(0, t as int)).len() ==> has_literal(table.entries(), #[trigger] literals_of(toplevels@.subrange(0, t as int))[i]),
                table.entries().len() < usize::MAX - 1 ==> forall|i: int| 0 <= i < t ==> has_key(table.entries(), AddrV::Source(item_name(#[trigger] toplevels@[i]), 0)),
            decreases toplevels@.len() - t,
        {
            let ghost sub = toplevels@.subrange(0, t + 1);
            proof {
                assert(sub.drop_last() =~= toplevels@.subrange(0, t as int));
                assert(sub.last() == toplevels@[t as int]);
            }
            match &toplevels[t] {
                ToplevelItem::Declaration(ToplevelDeclaration::Function { name, .. }) => {
                    let ghost e0 = table.entries();
                    table.insert_function(name, &mut count);
                    proof {
                        assert(literals_of(sub) =~= literals_of(toplevels@.subrange(0, t as int)));
                        assert forall|i: int| 0 <= i < literals_of(sub).len() && table.entries().len() < usize::MAX - 1 implies has_literal(table.entries(), #[trigger] literals_of(sub)[i]) by {
                            lemma_has_literal_prefix(e0, table.entries(), literals_of(sub)[i]);
                        }
                        assert forall|i: int| 0 <= i < t + 1 && table.entries().len() < usize::MAX - 1 implies has_key(table.entries(), AddrV::Source(item_name(#[trigger] toplevels@[i]), 0)) by {
                            if i < t {
                                lemma_has_key_prefix(e0, table.entries(), AddrV::Source(item_name(toplevels@[i]), 0));
                            }
                        }
                    }
                },
                ToplevelItem::Function(func) => {
                    let ghost e0 = table.entries();
                    table.insert_function(&func.name, &mut count);
                    let ghost before = literals_of(toplevels@.subrange(0, t as int));
                    proof {
                        assert(func.body@.subrange(0, 0) =~= Seq::<Ssa>::empty());
                        assert(before + body_literals(func.body@.subrange(0, 0)) =~= before);
                        assert forall|i: int| 0 <= i < before.len() && table.entries().len() < usize::MAX - 1 implies has_literal(table.entries(), #[trigger] before[i]) by {
                            lemma_has_literal_prefix(e0, table.entries(), before[i]);
                        }
                        assert forall|i: int| 0 <= i < t + 1 && table.entries().len() < usize::MAX - 1 implies has_key(table.entries(), AddrV::Source(item_name(#[trigger] toplevels@[i]), 0)) by {
                            if i < t {
                                lemma_has_key_prefix(e0, table.entries(), AddrV::Source(item_name(toplevels@[i]), 0));
                            }
                        }
                    }
                    let mut b: usize = 0;
                    while b < func.body.len()
                        invariant
                            b <= func.body@.len(),
                            table.wf(),
                            global_shape(table.entries()),
                            t < toplevels@.len(),
                            count as int == number_of_literals(table.entries()),
                            forall|i: int| 0 <= i < table.entries().len() && (#[trigger] table.entries()[i]).1.address is StringLiteral
                                ==> table.entries()[i].1.address->StringLiteral_0 < count,
                            table.entries().len() < usize::MAX - 1 ==> forall|i: int| 0 <= i < (before + body_literals(func.body@.subrange(0, b as int))).len() ==> has_literal(table.entries(), #[trigger] (before + body_literals(func.body@.subrange(0, b as int)))[i]),
                            table.entries().len() < usize::MAX - 1 ==> forall|i: int| 0 <= i < t + 1 ==> has_key(table.entries(), AddrV::Source(item_name(#[trigger] toplevels@[i]), 0)),
                        decreases func.body@.len() - b,
                    {
                        let ghost bs = func.body@.subrange(0, b + 1);
                        proof {
                            assert(bs.drop_last() =~= func.body@.subrange(0, b as int));
                            assert(bs.last() == func.body@[b as int]);
                        }
                        match &func.body[b] {
                            Ssa::Assignment { source: Address::Constant(AddressConstant::StringLiteral(s)), .. } => {
                                let ghost e0 = table.entries();
                                let ghost prev_all = before + body_literals(func.body@.subrange(0, b as int));
                                proof {
                                    assert(before + body_literals(bs) =~= prev_all.push(s@));
                                }
                                if table.lookup.len() < usize::MAX - 1 {
                                    table.insert_literal(s, &mut count);
                                }
                                proof {
                                    let all = before + body_literals(bs);
                                    assert(all =~= prev_all.push(s@));
                                    assert forall|i: int| 0 <= i < all.len() && table.entries().len() < usize::MAX - 1 implies has_literal(table.entries(), #[trigger] all[i]) by {
                                        if i < prev_all.len() {
                                            assert(all[i] == prev_all[i]);
                                            lemma_has_literal_prefix(e0, table.entries(), prev_all[i]);
                                        }
                                    }
                                    assert forall|i: int| 0 <= i < t + 1 && table.entries().len() < usize::MAX - 1 implies has_key(table.entries(), AddrV::Source(item_name(#[trigger] toplevels@[i]), 0)) by {
                                        lemma_has_key_prefix(e0, table.entries(), AddrV::Source(item_name(toplevels@[i]), 0));
                                    }
                                }
                            },
                            _ => {
                                proof {
                                    assert(before + body_literals(bs) =~= before + body_literals(func.body@.subrange(0, b as int)));
                                }
                            },
                        }
                        b += 1;
                    }
                    proof {
                        assert(func.body@.subrange(0, func.body@.len() as int) =~= func.body@);
                        assert(literals_of(sub) =~= before + body_literals(func.body@));
                    }
                },
            }
            t += 1;
        }
        proof {
            assert(toplevels@.subrange(0, toplevels@.len() as int) =~= toplevels@);
            assert forall|i: int| 0 <= i < toplevels@.len() && table.entries().len() < usize::MAX - 1
                implies has_function(table.entries(), item_name(#[trigger] toplevels@[i])) by {
                lemma_has_function(table.entries(), item_name(toplevels@[i]));
            }
        }
        table
    }

    /// Every string literal of the table with its id, in table order.
    pub fn string_literals_iter(&self) -> (r: Vec<(usize, String)>)
        requires
            self.wf(),
        ensures
            forall|k: int| 0 <= k < r@.len() ==> lit_entry(self.entries(), (#[trigger] r@[k]).0, r@[k].1@),
            forall|i: int| 0 <= i < self.entries().len() && (#[trigger] self.entries()[i]).1.address is StringLiteral
                ==> exists|k: int| 0 <= k < r@.len() && (#[trigger] r@[k]).0 == self.entries()[i].1.address->StringLiteral_0
                    && self.entries()[i].0.deep_view() == AddrV::Str(r@[k].1@),
            forall|a: int, b: int| 0 <= a < b < r@.len() ==> (#[trigger] r@[a]).0 != (#[trigger] r@[b]).0,
    {
        let mut out: Vec<(usize, String)> = Vec::new();
        let mut i: usize = 0;
        while i < self.lookup.len()
            invariant
                i <= self.entries().len(),
                self.wf(),
                forall|k: int| 0 <= k < out@.len() ==> lit_entry(self.entries(), (#[trigger] out@[k]).0, out@[k].1@),
                forall|t: int| 0 <= t < i && (#[trigger] self.entries()[t]).1.address is StringLiteral
                    ==> exists|k: int| 0 <= k < out@.len() && (#[trigger] out@[k]).0 == self.entries()[t].1.address->StringLiteral_0
                        && self.entries()[t].0.deep_view() == AddrV::Str(out@[k].1@),
                forall|a: int, b: int| 0 <= a < b < out@.len() ==> (#[trigger] out@[a]).0 != (#[trigger] out@[b]).0,
                forall|a: int| 0 <= a < out@.len() ==> exists|t: int| 0 <= t < i
                    && (#[trigger] self.entries()[t]).1.address == SymbolAddress::StringLiteral((#[trigger] out@[a]).0),
            decreases self.entries().len() - i,
        {
            let ghost prev = out@;
            if let SymbolAddress::StringLiteral(id) = &self.lookup[i].1.address {
                if let Address::Constant(AddressConstant::StringLiteral(text)) = &self.lookup[i].0 {
                    proof {
                        assert forall|a: int| 0 <= a < prev.len() implies (#[trigger] prev[a]).0 != *id by {
                            let t = choose|t: int| 0 <= t < i
                                && (#[trigger] self.entries()[t]).1.address == SymbolAddress::StringLiteral(prev[a].0);
                            assert(self.entries()[i as int].1.address == SymbolAddress::StringLiteral(*id));
                        }
                    }
                    out.push((*id, text.clone()));
                    proof {
                        assert(out@[prev.len() as int] == (*id, *text));
                    }
                }
            }
            proof {
                assert forall|k: int| 0 <= k < out@.len() implies lit_entry(self.entries(), (#[trigger] out@[k]).0, out@[k].1@) by {
                    if k < prev.len() {
                        assert(out@[k] == prev[k]);
                    } else {
                        assert(self.entries()[i as int].1.address == SymbolAddress::StringLiteral(out@[k].0));
                    }
                }
                assert forall|a: int| 0 <= a < out@.len() implies exists|t: int| 0 <= t < i + 1
                    && (#[trigger] self.entries()[t]).1.address == SymbolAddress::StringLiteral((#[trigger] out@[a]).0) by {
                    if a < prev.len() {
                        assert(out@[a] == prev[a]);
                        let t = choose|t: int| 0 <= t < i
                            && (#[trigger] self.entries()[t]).1.address == SymbolAddress::StringLiteral(prev[a].0);
                    } else {
                        assert(self.entries()[i as int].1.address == SymbolAddress::StringLiteral(out@[a].0));
                    }
                }
                assert forall|a: int, b: int| 0 <= a < b < out@.len() implies (#[trigger] out@[a]).0 != (#[trigger] out@[b]).0 by {
                    if b < prev.len() {
                        assert(out@[a] == prev[a] && out@[b] == prev[b]);
                    } else {
                        assert(out@[a] == prev[a]);
                    }
                }
                assert forall|t: int| 0 <= t < i + 1 && (#[trigger] self.entries()[t]).1.address is StringLiteral
                    implies exists|k: int| 0 <= k < out@.len() && (#[trigger] out@[k]).0 == self.entries()[t].1.address->StringLiteral_0
                        && self.entries()[t].0.deep_view() == AddrV::Str(out@[k].1@) by {
                    if t < i {
                        let k = choose|k: int| 0 <= k < prev.len() && (#[trigger] prev[k]).0 == self.entries()[t].1.address->StringLiteral_0
                            && self.entries()[t].0.deep_view() == AddrV::Str(prev[k].1@);
                        assert(out@[k] == prev[k]);
                    } else {
                        assert(out@[prev.len() as int].0 == self.entries()[t].1.address->StringLiteral_0);
                    }
                }
            }
            i += 1;
        }
        out
    }

    /// The id of a string literal, if the table holds it.
    pub fn literal_id(&self, text: &String) -> (r: Option<usize>)
        requires
            self.wf(),
        ensures
            r matches Some(id) ==> exists|i: int| 0 <= i < self.entries().len()
                && (#[trigger] self.entries()[i]).0.deep_view() == AddrV::Str(text@)
                && self.entries()[i].1.address == SymbolAddress::StringLiteral(id),
            r is None ==> !has_literal(self.entries(), text@),
    {
        let key = Address::Constant(AddressConstant::StringLiteral(text.clone()));
        match self.find(&key) {
            Some(i) => match &self.lookup[i].1.address {
                SymbolAddress::StringLiteral(id) => Some(*id),
                _ => None,
            },
            None => None,
        }
    }

    /// Bytes of frame the variables of the table take, rounded up to 16.
    pub fn stack_size(&self) -> (r: Option<usize>)
        ensures
            r matches Some(n) ==> n % 16 == 0 && width_sum(self.entries()) <= n < width_sum(self.entries()) + 16,
            r is None <==> width_sum(self.entries()) > usize::MAX - 64,
    {
        let mut total: usize = 0;
        let mut i: usize = 0;
        while i < self.lookup.len()
            invariant
                i <= self.entries().len(),
                total == width_sum(self.entries().subrange(0, i as int)),
                total <= width_sum(self.entries()),
            decreases self.entries().len() - i,
        {
            proof {
                lemma_width_sum_prefix(self.entries(), i + 1);
            }
            proof {
                let sub = self.entries().subrange(0, i + 1);
                assert(sub.drop_last() =~= self.entries().subrange(0, i as int));
                assert(sub.last() == self.entries()[i as int]);
            }
            let w = self.lookup[i].1.width.to_bytes();
            if total > usize::MAX - 64 {
                return None;
            }
            total = total + w;
            i += 1;
        }
        proof {
            assert(self.entries().subrange(0, self.entries().len() as int) =~= self.entries());
        }
        if total > usize::MAX - 64 {
            return None;
        }
        let r = if total % 16 == 0 { total } else { total + 16 - total % 16 };
        Some(r)
    }

    /// Frame offsets for the values a function body defines, each at the first free
    /// offset after those before it.
    pub fn from_fn_body(ir: &[Ssa]) -> (r: SymbolLookup)
        ensures
            r.wf(),
            forall|i: int| 0 <= i < r.entries().len() ==> (#[trigger] r.entries()[i]).1.address
                == SymbolAddress::VariableOffset(width_sum(r.entries().subrange(0, i)) as usize),
            forall|i: int| 0 <= i < r.entries().len() ==> exists|j: int| 0 <= j < ir@.len()
                && (#[trigger] ir@[j]).deep_view().defined() == Some((#[trigger] r.entries()[i]).0.deep_view())
                && def_width(ir@[j]) == r.entries()[i].1.width,
            width_sum(r.entries()) <= usize::MAX - 8 ==> forall|j: int| 0 <= j < ir@.len()
                && defines_var(#[trigger] ir@[j])
                ==> has_key(r.entries(), ir@[j].deep_view().defined()->0),
    {
        let mut table = SymbolLookup { lookup: Vec::new() };
        let mut offset: usize = 0;
        let mut j: usize = 0;
        while j < ir.len()
            invariant
                j <= ir@.len(),
                table.wf(),
                offset == width_sum(table.entries()),
                table.entries().len() <= offset,
                forall|i: int| 0 <= i < table.entries().len() ==> (#[trigger] table.entries()[i]).1.address
                    == SymbolAddress::VariableOffset(width_sum(table.entries().subrange(0, i)) as usize),
                forall|i: int| 0 <= i < table.entries().len() ==> exists|jj: int| 0 <= jj < j
                    && (#[trigger] ir@[jj]).deep_view().defined() == Some((#[trigger] table.entries()[i]).0.deep_view())
                    && def_width(ir@[jj]) == table.entries()[i].1.width,
                offset <= usize::MAX - 8 ==> forall|jj: int| 0 <= jj < j
                    && defines_var(#[trigger] ir@[jj])
                    ==> has_key(table.entries(), ir@[jj].deep_view().defined()->0),
            decreases ir@.len() - j,
        {
            let defined = crate::dataflow::defined_of(&ir[j]);
            let width = match &ir[j] {
                Ssa::Assignment { width, .. } => *width,
                Ssa::Quadriplet(q) => q.width,
                Ssa::Phi(p) => p.width,
                Ssa::Call { dest: Some((_, w)), .. } => *w,
                _ => Width::Long,
            };
            let ghost prev = table.lookup@;
            let ghost prev_offset = offset;
            if let Some(addr) = defined {
                let found = table.find(addr);
                if !addr.is_constant() && found.is_none() && offset <= usize::MAX - 8 && table.lookup.len() < usize::MAX {
                    table.lookup.push((addr.duplicate(), SymbolInfo { address: SymbolAddress::VariableOffset(offset), width }));
                    offset = offset + width.to_bytes();
                    proof {
                        let e = table.lookup@;
                        assert(e == prev.push(e.last()));
                        assert(e.drop_last() =~= prev);
                        assert forall|a: int, b: int| 0 <= a < b < e.len() implies (#[trigger] e[a]).0.deep_view()
                            != (#[trigger] e[b]).0.deep_view() by {
                            if b < prev.len() {
                                assert(e[a] == prev[a] && e[b] == prev[b]);
                            } else {
                                assert(e[a] == prev[a]);
                            }
                        }
                        assert forall|a: int| 0 <= a < e.len() implies ((#[trigger] e[a]).1.address is StringLiteral
                            <==> e[a].0.deep_view() is Str) by {
                            if a < prev.len() {
                                assert(e[a] == prev[a]);
                            }
                        }
                        assert forall|a: int| 0 <= a < e.len() implies (#[trigger] e[a]).1.address
                            == SymbolAddress::VariableOffset(width_sum(e.subrange(0, a)) as usize) by {
                            if a < prev.len() {
                                assert(e[a] == prev[a]);
                                assert(e.subrange(0, a) =~= prev.subrange(0, a));
                            } else {
                                assert(e.subrange(0, a) =~= prev);
                            }
                        }
                        assert forall|a: int| 0 <= a < e.len() implies exists|jj: int| 0 <= jj < j + 1
                            && (#[trigger] ir@[jj]).deep_view().defined() == Some((#[trigger] e[a]).0.deep_view())
                            && def_width(ir@[jj]) == e[a].1.width by {
                            if a < prev.len() {
                                assert(e[a] == prev[a]);
                                let jj = choose|jj: int| 0 <= jj < j
                                    && (#[trigger] ir@[jj]).deep_view().defined() == Some((#[trigger] prev[a]).0.deep_view())
                                    && def_width(ir@[jj]) == prev[a].1.width;
                            } else {
                                assert(ir@[j as int].deep_view().defined() == Some(e[a].0.deep_view()));
                            }
                        }
                        assert forall|jj: int| 0 <= jj < j + 1 && defines_var(#[trigger] ir@[jj])
                            && offset <= usize::MAX - 8
                            implies has_key(e, ir@[jj].deep_view().defined()->0) by {
                            if jj < j {
                                lemma_has_key_prefix(prev, e, ir@[jj].deep_view().defined()->0);
                            } else {
                                assert(e[prev.len() as int].0.deep_view() == ir@[jj].deep_view().defined()->0);
                            }
                        }
                    }
                } else {
                    proof {
                        if !addr.deep_view().is_const() && offset <= usize::MAX - 8 {
                            assert(found is Some);
                            assert(has_key(table.entries(), addr.deep_view()));
                        }
                    }
                }
            }
            j += 1;
        }
        table
    }

    /// The entries of `global`, then those of `self` that `global` lacks.
    pub fn extend_with_global(self, global: SymbolLookup) -> (r: SymbolLookup)
        ensures
            r.entries().len() >= global.entries().len(),
            r.entries().subrange(0, global.entries().len() as int) == global.entries(),
            forall|i: int| global.entries().len() <= i < r.entries().len() ==> entry_of(self.entries(), #[trigger] r.entries()[i]),
            forall|k: int| 0 <= k < self.entries().len() ==> has_key(r.entries(), (#[trigger] self.entries()[k]).0.deep_view()),
    {
        let mut joint = global.lookup;
        let ghost g = joint@;
        let mut i: usize = 0;
        let mut own = self.lookup;
        let ghost mine = own@;
        while i < own.len()
            invariant
                i <= own@.len(),
                own@ == mine,
                joint@.len() >= g.len(),
                joint@.subrange(0, g.len() as int) == g,
                forall|t: int| g.len() <= t < joint@.len() ==> entry_of(mine, #[trigger] joint@[t]),
                forall|k: int| 0 <= k < i ==> has_key(joint@, (#[trigger] mine[k]).0.deep_view()),
            decreases own@.len() - i,
        {
            let key = own[i].0.duplicate();
            let mut present = false;
            let mut t: usize = 0;
            while t < joint.len()
                invariant
                    t <= joint@.len(),
                    present ==> has_key(joint@, key.deep_view()),
                decreases joint@.len() - t,
            {
                if joint[t].0.same(&key) {
                    present = true;
                    proof {
                        assert(joint@[t as int].0.deep_view() == key.deep_view());
                    }
                }
                t += 1;
            }
            let ghost before_push = joint@;
            proof {
                assert(key.deep_view() == mine[i as int].0.deep_view());
            }
            if !present {
                let ghost prev = joint@;
                let entry = (key, SymbolInfo { address: clone_symbol_address(&own[i].1.address), width: own[i].1.width });
                proof {
                    assert(entry == mine[i as int]);
                }
                joint.push(entry);
                proof {
                    assert(joint@.subrange(0, g.len() as int) =~= prev.subrange(0, g.len() as int));
                    assert forall|t: int| g.len() <= t < joint@.len() implies entry_of(mine, #[trigger] joint@[t]) by {
                        if t < prev.len() {
                            assert(joint@[t] == prev[t]);
                        } else {
                            assert(joint@[t] == mine[i as int]);
                        }
                    }
                    assert(joint@[prev.len() as int].0.deep_view() == mine[i as int].0.deep_view());
                }
            }
            proof {
                assert(joint@.subrange(0, before_push.len() as int) =~= before_push);
                assert forall|k: int| 0 <= k < i + 1 implies has_key(joint@, (#[trigger] mine[k]).0.deep_view()) by {
                    if k < i {
                        lemma_has_key_prefix(before_push, joint@, mine[k].0.deep_view());
                    }
                }
            }
            i += 1;
        }
        SymbolLookup { lookup: joint }
    }

    fn find(&self, key: &Address) -> (r: Option<usize>)
        ensures
            match r {
                Some(i) => i < self.entries().len() && self.entries()[i as int].0.deep_view() == key.deep_view(),
                None => forall|i: int| 0 <= i < self.entries().len() ==> (#[trigger] self.entries()[i]).0.deep_view() != key.deep_view(),
            },
    {
        let mut i: usize = 0;
        while i < self.lookup.len()
            invariant
                i <= self.entries().len(),
                forall|t: int| 0 <= t < i ==> (#[trigger] self.entries()[t]).0.deep_view() != key.deep_view(),
            decreases self.entries().len() - i,
        {
            if self.lookup[i].0.same(key) {
                return Some(i);
            }
            i += 1;
        }
        None
    }

    fn insert_function(&mut self, name: &String, count: &mut usize)
        requires
            old(self).wf(),
            global_shape(old(self).entries()),
            *old(count) as int == number_of_literals(old(self).entries()),
            forall|i: int| 0 <= i < old(self).entries().len() && (#[trigger] old(self).entries()[i]).1.address is StringLiteral
                ==> old(self).entries()[i].1.address->StringLiteral_0 < *old(count),
        ensures
            final(self).wf(),
            final(self).entries().len() <= old(self).entries().len() + 1,
            *final(count) == *old(count),
            *final(count) as int == number_of_literals(final(self).entries()),
            forall|i: int| 0 <= i < final(self).entries().len() && (#[trigger] final(self).entries()[i]).1.address is StringLiteral
                ==> final(self).entries()[i].1.address->StringLiteral_0 < *final(count),
            final(self).entries().len() >= old(self).entries().len(),
            final(self).entries().subrange(0, old(self).entries().len() as int) == old(self).entries(),
            final(self).entries().len() < usize::MAX ==> has_key(final(self).entries(), AddrV::Source(name@, 0)),
            global_shape(final(self).entries()),
    {
        let key = Address::Source(name.clone(), 0);
        if self.find(&key).is_none() && self.lookup.len() < usize::MAX {
            let ghost prev = self.lookup@;
            self.lookup.push((key, SymbolInfo { address: SymbolAddress::SourceFunction(name.clone()), width: Width::Long }));
            proof {
                assert(self.lookup@[prev.len() as int].0.deep_view() == AddrV::Source(name@, 0));
                lemma_shape_push(prev, self.lookup@.last());
                lemma_count_push_nonliteral(prev, self.lookup@.last());
                assert(self.lookup@ == prev.push(self.lookup@.last()));
                assert(self.lookup@.subrange(0, prev.len() as int) =~= prev);
            }
        } else {
            proof {
                assert(self.lookup@.subrange(0, self.lookup@.len() as int) =~= self.lookup@);
            }
        }
    }

    fn insert_literal(&mut self, s: &String, count: &mut usize)
        requires
            old(self).wf(),
            global_shape(old(self).entries()),
            old(self).entries().len() < usize::MAX,
            *old(count) as int == number_of_literals(old(self).entries()),
            forall|i: int| 0 <= i < old(self).entries().len() && (#[trigger] old(self).entries()[i]).1.address is StringLiteral
                ==> old(self).entries()[i].1.address->StringLiteral_0 < *old(count),
        ensures
            final(self).wf(),
            final(self).entries().len() <= old(self).entries().len() + 1,
            *final(count) as int == number_of_literals(final(self).entries()),
            forall|i: int| 0 <= i < final(self).entries().len() && (#[trigger] final(self).entries()[i]).1.address is StringLiteral
                ==> final(self).entries()[i].1.address->StringLiteral_0 < *final(count),
            final(self).entries().len() >= old(self).entries().len(),
            final(self).entries().subrange(0, old(self).entries().len() as int) == old(self).entries(),
            has_literal(final(self).entries(), s@),
            global_shape(final(self).entries()),
    {
        let key = Address::Constant(AddressConstant::StringLiteral(s.clone()));
        match self.find(&key) {
            Some(i) => {
                proof {
                    assert(self.lookup@.subrange(0, self.lookup@.len() as int) =~= self.lookup@);
                }
                assert(self.entries()[i as int].0.deep_view() == AddrV::Str(s@));
                assert(self.entries()[i as int].1.address is StringLiteral);
            },
            None => {
                let ghost prev = self.lookup@;
                proof {
                    lemma_count_le_len(self.lookup@);
                }
                self.lookup.push((key, SymbolInfo { address: SymbolAddress::StringLiteral(*count), width: Width::Long }));
                *count = *count + 1;
                proof {
                    lemma_shape_push(prev, self.lookup@.last());
                    lemma_count_push_literal(prev, self.lookup@.last());
                    assert(self.lookup@ == prev.push(self.lookup@.last()));
                    assert(self.lookup@.subrange(0, prev.len() as int) =~= prev);
                    assert(self.lookup@[prev.len() as int].0.deep_view() == AddrV::Str(s@));
                }
            },
        }
    }
}

fn clone_symbol_address(a: &SymbolAddress) -> (r: SymbolAddress)
    ensures
        r == *a,
{
    match a {
        SymbolAddress::VariableOffset(v) => SymbolAddress::VariableOffset(*v),
        SymbolAddress::StringLiteral(v) => SymbolAddress::StringLiteral(*v),
        SymbolAddress::SourceFunction(s) => SymbolAddress::SourceFunction(s.clone()),
    }
}

/// `x` is one of the entries `e`.
pub open spec fn entry_of(e: Seq<(Address, SymbolInfo)>, x: (Address, SymbolInfo)) -> bool {
    exists|k: int| 0 <= k < e.len() && e[k] == x
}

proof fn lemma_width_sum_prefix(e: Seq<(Address, SymbolInfo)>, n: int)
    requires
        0 <= n <= e.len(),
    ensures
        width_sum(e.subrange(0, n)) <= width_sum(e),
    decreases e.len() - n,
{
    if n < e.len() {
        lemma_width_sum_prefix(e, n + 1);
        let sub = e.subrange(0, n + 1);
        assert(sub.drop_last() =~= e.subrange(0, n));
    } else {
        assert(e.subrange(0, n) =~= e);
    }
}

/// The statement defines a value that is not a constant.
pub open spec fn defines_var(s: Ssa) -> bool {
    match s.deep_view().defined() {
        Some(a) => !a.is_const(),
        None => false,
    }
}

/// The width of the value a statement defines.
pub open spec fn def_width(s: Ssa) -> Width {
    match s {
        Ssa::Assignment { width, .. } => width,
        Ssa::Quadriplet(q) => q.width,
        Ssa::Phi(p) => p.width,
        Ssa::Call { dest: Some((_, w)), .. } => w,
        _ => Width::Long,
    }
}

/// Total bytes of the widths of a table's entries.
pub open spec fn width_sum(e: Seq<(Address, SymbolInfo)>) -> nat
    decreases e.len(),
{
    if e.len() == 0 {
        0
    } else {
        width_sum(e.drop_last()) + e.last().1.width.bytes()
    }
}

/// Every function key `n` maps to `SourceFunction(n)` and every literal to a long
/// word: the shape of the global table.
pub open spec fn global_shape(e: Seq<(Address, SymbolInfo)>) -> bool {
    forall|k: int| 0 <= k < e.len() ==> global_entry_ok(#[trigger] e[k])
}

pub open spec fn global_entry_ok(x: (Address, SymbolInfo)) -> bool {
    &&& x.1.width == Width::Long
    &&& (x.0.deep_view() is Source ==> x.0.deep_view()->Source_1 == 0 && x.1.address is SourceFunction
        && x.1.address->SourceFunction_0@ == x.0.deep_view()->Source_0)
    &&& (x.0.deep_view() is Str ==> x.1.address is StringLiteral)
}

/// The table maps `n` to the function symbol `SourceFunction(n)`, a long word.
pub open spec fn has_function(e: Seq<(Address, SymbolInfo)>, n: Seq<char>) -> bool {
    exists|k: int| 0 <= k < e.len() && (#[trigger] e[k]).0.deep_view() == AddrV::Source(n, 0)
        && e[k].1.address is SourceFunction && e[k].1.address->SourceFunction_0@ == n && e[k].1.width == Width::Long
}

proof fn lemma_has_function(e: Seq<(Address, SymbolInfo)>, n: Seq<char>)
    requires
        global_shape(e),
        has_key(e, AddrV::Source(n, 0)),
    ensures
        has_function(e, n),
{
    let k = choose|k: int| 0 <= k < e.len() && (#[trigger] e[k]).0.deep_view() == AddrV::Source(n, 0);
    assert(global_entry_ok(e[k]));
}

proof fn lemma_shape_push(e: Seq<(Address, SymbolInfo)>, x: (Address, SymbolInfo))
    requires
        global_shape(e),
        global_entry_ok(x),
    ensures
        global_shape(e.push(x)),
{
    assert forall|k: int| 0 <= k < e.push(x).len() implies global_entry_ok(#[trigger] e.push(x)[k]) by {
        if k < e.len() {
            assert(e.push(x)[k] == e[k]);
        }
    }
}

/// Some entry has key `a`.
pub open spec fn has_key(e: Seq<(Address, SymbolInfo)>, a: AddrV) -> bool {
    exists|k: int| 0 <= k < e.len() && (#[trigger] e[k]).0.deep_view() == a
}

/// The name an item of a unit declares or defines.
pub open spec fn item_name(item: ToplevelItem) -> Seq<char> {
    match item {
        ToplevelItem::Function(f) => f.name@,
        ToplevelItem::Declaration(ToplevelDeclaration::Function { name, .. }) => name@,
    }
}

proof fn lemma_has_key_prefix(old_e: Seq<(Address, SymbolInfo)>, new_e: Seq<(Address, SymbolInfo)>, a: AddrV)
    requires
        has_key(old_e, a),
        new_e.len() >= old_e.len(),
        new_e.subrange(0, old_e.len() as int) == old_e,
    ensures
        has_key(new_e, a),
{
    let k = choose|k: int| 0 <= k < old_e.len() && (#[trigger] old_e[k]).0.deep_view() == a;
    assert(new_e.subrange(0, old_e.len() as int)[k] == new_e[k]);
}

/// Some entry maps literal `text` to id `id`.
pub open spec fn lit_entry(e: Seq<(Address, SymbolInfo)>, id: usize, text: Seq<char>) -> bool {
    exists|i: int| 0 <= i < e.len() && (#[trigger] e[i]).1.address == SymbolAddress::StringLiteral(id)
        && e[i].0.deep_view() == AddrV::Str(text)
}

/// The table maps literal `s` to a string-literal symbol.
pub open spec fn has_literal(e: Seq<(Address, SymbolInfo)>, s: Seq<char>) -> bool {
    exists|k: int| 0 <= k < e.len() && (#[trigger] e[k]).0.deep_view() == AddrV::Str(s) && e[k].1.address is StringLiteral
}

proof fn lemma_has_literal_prefix(old_e: Seq<(Address, SymbolInfo)>, new_e: Seq<(Address, SymbolInfo)>, s: Seq<char>)
    requires
        has_literal(old_e, s),
        new_e.len() >= old_e.len(),
        new_e.subrange(0, old_e.len() as int) == old_e,
    ensures
        has_literal(new_e, s),
{
    let k = choose|k: int| 0 <= k < old_e.len() && (#[trigger] old_e[k]).0.deep_view() == AddrV::Str(s) && old_e[k].1.address is StringLiteral;
    assert(new_e.subrange(0, old_e.len() as int)[k] == new_e[k]);
}

/// Number of string-literal entries in a table.
pub open spec fn number_of_literals(s: Seq<(Address, SymbolInfo)>) -> int
    decreases s.len(),
{
    if s.len() == 0 {
        0
    } else {
        number_of_literals(s.drop_last()) + if s.last().1.address is StringLiteral { 1int } else { 0int }
    }
}

proof fn lemma_count_le_len(s: Seq<(Address, SymbolInfo)>)
    ensures
        0 <= number_of_literals(s) <= s.len(),
    decreases s.len(),
{
    if s.len() > 0 {
        lemma_count_le_len(s.drop_last());
    }
}

proof fn lemma_count_push_nonliteral(s: Seq<(Address, SymbolInfo)>, e: (Address, SymbolInfo))
    requires
        !(e.1.address is StringLiteral),
    ensures
        number_of_literals(s.push(e)) == number_of_literals(s),
{
    assert(s.push(e).drop_last() =~= s);
}

proof fn lemma_count_push_literal(s: Seq<(Address, SymbolInfo)>, e: (Address, SymbolInfo))
    requires
        e.1.address is StringLiteral,
    ensures
        number_of_literals(s.push(e)) == number_of_literals(s) + 1,
{
    assert(s.push(e).drop_last() =~= s);
}

} // verus!
