//! The symbol table of the assembler: where each declared name lives in memory, and what
//! it holds at the start.
use vstd::prelude::*;
use vstd::string::*;
use crate::assembler::parser::{DataDecl, DeclView, decls_view};
use crate::text::{push_str, str_eq};

verus! {

broadcast use vstd::string::group_string_axioms;

/// A symbol's memory address and initial value.
pub type Item = (u8, u8);

/// The entries of a symbol map, as values, in the order they were first inserted.
pub type Entries = Seq<(Seq<char>, Item)>;

/// The index of the entry for `k`, or -1 when there is none.
pub open spec fn key_index(es: Entries, k: Seq<char>) -> int
    decreases es.len(),
{
    if es.len() == 0 {
        -1
    } else if es.last().0 == k {
        es.len() - 1
    } else {
        key_index(es.drop_last(), k)
    }
}

/// What the map holds for `k`.
pub open spec fn lookup(es: Entries, k: Seq<char>) -> Option<Item> {
    let i = key_index(es, k);
    if i >= 0 {
        Some(es[i].1)
    } else {
        None
    }
}

/// The entries after setting `k` to `v`: an existing entry keeps its place, a new one
/// goes last.
pub open spec fn insert_entry(es: Entries, k: Seq<char>, v: Item) -> Entries {
    let i = key_index(es, k);
    if i >= 0 {
        es.update(i, (k, v))
    } else {
        es.push((k, v))
    }
}

/// `key_index` finds the last entry for `k`, and -1 exactly when there is none.
pub proof fn lemma_key_index(es: Entries, k: Seq<char>)
    ensures
        -1 <= key_index(es, k) < es.len(),
        key_index(es, k) >= 0 ==> es[key_index(es, k)].0 == k,
        key_index(es, k) == -1 <==> forall|j: int| 0 <= j < es.len() ==> es[j].0 != k,
        forall|j: int| key_index(es, k) < j < es.len() ==> es[j].0 != k,
    decreases es.len(),
{
    if es.len() > 0 {
        lemma_key_index(es.drop_last(), k);
        if es.last().0 != k {
            assert forall|j: int| 0 <= j < es.len() - 1 implies es[j] == es.drop_last()[j] by {}
        }
    }
}

proof fn lemma_key_index_same_keys(a: Entries, b: Entries, k: Seq<char>)
    requires
        a.len() == b.len(),
        forall|j: int| 0 <= j < a.len() ==> a[j].0 == b[j].0,
    ensures
        key_index(a, k) == key_index(b, k),
    decreases a.len(),
{
    if a.len() > 0 {
        lemma_key_index_same_keys(a.drop_last(), b.drop_last(), k);
    }
}

/// Setting a name and then reading it gives what was set; reading another name gives
/// what it held before.
pub proof fn lemma_lookup_insert(es: Entries, k: Seq<char>, v: Item, k2: Seq<char>)
    ensures
        lookup(insert_entry(es, k, v), k2) == (if k2 == k {
            Some(v)
        } else {
            lookup(es, k2)
        }),
{
    lemma_key_index(es, k);
    let i = key_index(es, k);
    if i >= 0 {
        let es2 = es.update(i, (k, v));
        lemma_key_index_same_keys(es, es2, k2);
        lemma_key_index_same_keys(es, es2, k);
        lemma_key_index(es, k2);
        assert(insert_entry(es, k, v) == es2);
        if k2 != k {
            let j = key_index(es, k2);
            if j >= 0 {
                assert(es2[j] == es[j]);
            }
        }
    } else {
        let es2 = es.push((k, v));
        assert(es2.drop_last() =~= es);
        assert(insert_entry(es, k, v) == es2);
        assert(es2.last().0 == k);
        if k2 == k {
            assert(key_index(es2, k2) == es.len());
        } else {
            assert(key_index(es2, k2) == key_index(es, k2));
            lemma_key_index(es, k2);
            let j = key_index(es, k2);
            if j >= 0 {
                assert(es2[j] == es[j]);
            }
        }
    }
}

/// A map from names to symbols that keeps the order in which names were first inserted.
pub struct SymbolMap {
    pub entries: Vec<(String, Item)>,
}

impl View for SymbolMap {
    type V = Entries;

    open spec fn view(&self) -> Entries {
        Seq::new(self.entries@.len(), |i: int| (self.entries@[i].0@, self.entries@[i].1))
    }
}

impl SymbolMap {
    /// An empty map.
    pub fn new() -> (r: Self)
        ensures
            r@ == Seq::<(Seq<char>, Item)>::empty(),
    {
        SymbolMap { entries: Vec::new() }
    }

    /// The index of the entry for `k`.
    fn find(&self, k: &str) -> (r: Option<usize>)
        ensures
            r matches Some(i) ==> i as int == key_index(self@, k@),
            r is None ==> key_index(self@, k@) == -1,
    {
        let mut i = self.entries.len();
        proof {
            lemma_key_index(self@, k@);
        }
        while i > 0
            invariant
                i <= self.entries@.len(),
                key_index(self@, k@) < i,
            decreases i,
        {
            proof {
                lemma_key_index(self@, k@);
            }
            if str_eq(self.entries[i - 1].0.as_str(), k) {
                assert(self@[i - 1].0 == k@);
                return Some(i - 1);
            }
            i = i - 1;
        }
        proof {
            lemma_key_index(self@, k@);
        }
        None
    }

    /// Whether the map has an entry for `k`.
    pub fn contains_key(&self, k: &str) -> (r: bool)
        ensures
            r == (lookup(self@, k@) is Some),
    {
        proof {
            lemma_key_index(self@, k@);
        }
        self.find(k).is_some()
    }

    /// What the map holds for `k`.
    pub fn get(&self, k: &str) -> (r: Option<Item>)
        ensures
            r == lookup(self@, k@),
    {
        proof {
            lemma_key_index(self@, k@);
        }
        match self.find(k) {
            Some(i) => Some(self.entries[i].1),
            None => None,
        }
    }

    /// Sets `k` to `v`.
    pub fn insert(&mut self, k: String, v: Item)
        ensures
            final(self)@ == insert_entry(old(self)@, k@, v),
    {
        proof {
            lemma_key_index(self@, k@);
        }
        match self.find(k.as_str()) {
            Some(i) => {
                self.entries.set(i, (k, v));
            },
            None => {
                self.entries.push((k, v));
            },
        }
        assert(self@ =~= insert_entry(old(self)@, k@, v));
    }
}

/// An error found while laying out the declared data.
#[derive(Debug, Clone)]
pub struct SyntaxError {
    pub error: String,
}

impl View for SyntaxError {
    type V = Seq<char>;

    open spec fn view(&self) -> Seq<char> {
        self.error@
    }
}

impl SyntaxError {
    /// An error with the given message.
    pub fn new(message: String) -> (r: Self)
        ensures
            r@ == message@,
    {
        SyntaxError { error: message }
    }

    /// The error as it is shown: `Syntax error: `, the message and a line break.
    pub fn to_string(&self) -> (r: String)
        ensures
            r@ == "Syntax error: "@ + self@ + "\n"@,
    {
        let mut s = String::new();
        push_str(&mut s, "Syntax error: ");
        push_str(&mut s, self.error.as_str());
        push_str(&mut s, "\n");
        s
    }
}

/// The message for a name declared twice.
pub open spec fn msg_already_declared(var: Seq<char>) -> Seq<char> {
    "Semantic error. Var '"@ + var + "' was already declared."@
}

/// The message for a second `ORG` after the program counter was set.
pub open spec fn msg_pc_already_set() -> Seq<char> {
    "Semantic error. Program count was already set."@
}

/// The symbol table while the declarations are laid out: the program counter, the
/// entries, and the next free address, which goes down from 250.
pub struct Layout {
    pub pc: u8,
    pub entries: Entries,
    pub addr: int,
}

/// What laying out declarations comes to: a layout, an error with the layout reached so
/// far, or an address that leaves the byte range (where the arithmetic overflows).
pub enum LayoutOut {
    Done(Layout),
    Failed(Seq<char>, Layout),
    Overflow,
}

/// Lays out one declaration. `DATA` takes the next free address and moves it down by one;
/// `SPACE n` moves it down by `n - 1` and takes it; `ORG` sets the program counter, once.
pub open spec fn layout_step(l: Layout, d: DeclView) -> LayoutOut {
    match d {
        DeclView::Data(var, value) => {
            if lookup(l.entries, var) is Some {
                LayoutOut::Failed(msg_already_declared(var), l)
            } else if l.addr < 1 {
                LayoutOut::Overflow
            } else {
                LayoutOut::Done(
                    Layout {
                        entries: insert_entry(l.entries, var, (l.addr as u8, value)),
                        addr: l.addr - 1,
                        ..l
                    },
                )
            }
        },
        DeclView::Space(var, size) => {
            if lookup(l.entries, var) is Some {
                LayoutOut::Failed(msg_already_declared(var), l)
            } else if size < 1 || l.addr < size - 1 {
                LayoutOut::Overflow
            } else {
                let a = l.addr - (size - 1);
                LayoutOut::Done(
                    Layout { entries: insert_entry(l.entries, var, (a as u8, 0u8)), addr: a, ..l },
                )
            }
        },
        DeclView::Org(a) => {
            if l.pc != 0 {
                LayoutOut::Failed(msg_pc_already_set(), l)
            } else {
                LayoutOut::Done(Layout { pc: a, ..l })
            }
        },
    }
}

/// Lays out the declarations in order, stopping at the first error.
pub open spec fn layout(l: Layout, ds: Seq<DeclView>) -> LayoutOut
    decreases ds.len(),
{
    if ds.len() == 0 {
        LayoutOut::Done(l)
    } else {
        match layout(l, ds.drop_last()) {
            LayoutOut::Done(l2) => layout_step(l2, ds.last()),
            other => other,
        }
    }
}

/// The entries once the pseudo-registers are added at the top of memory.
pub open spec fn with_registers(es: Entries) -> Entries {
    insert_entry(
        insert_entry(
            insert_entry(
                insert_entry(insert_entry(es, "t0"@, (251u8, 0u8)), "t1"@, (252u8, 0u8)),
                "t2"@,
                (253u8, 0u8),
            ),
            "t3"@,
            (254u8, 0u8),
        ),
        "t4"@,
        (255u8, 0u8),
    )
}

/// The names the pseudo-registers are entered under.
pub open spec fn register_name(k: Seq<char>) -> bool {
    k == "t0"@ || k == "t1"@ || k == "t2"@ || k == "t3"@ || k == "t4"@
}

/// Adding the pseudo-registers leaves every other name as it was.
pub proof fn lemma_with_registers_other(es: Entries, k: Seq<char>)
    requires
        !register_name(k),
    ensures
        lookup(with_registers(es), k) == lookup(es, k),
{
    let e1 = insert_entry(es, "t0"@, (251u8, 0u8));
    let e2 = insert_entry(e1, "t1"@, (252u8, 0u8));
    let e3 = insert_entry(e2, "t2"@, (253u8, 0u8));
    let e4 = insert_entry(e3, "t3"@, (254u8, 0u8));
    lemma_lookup_insert(es, "t0"@, (251u8, 0u8), k);
    lemma_lookup_insert(e1, "t1"@, (252u8, 0u8), k);
    lemma_lookup_insert(e2, "t2"@, (253u8, 0u8), k);
    lemma_lookup_insert(e3, "t3"@, (254u8, 0u8), k);
    lemma_lookup_insert(e4, "t4"@, (255u8, 0u8), k);
}

/// Once a layout succeeds, a name declared `DATA x` reads back `x`, and a name declared
/// `SPACE` reads back 0.
pub proof fn lemma_layout_reads_back(l: Layout, ds: Seq<DeclView>, i: int)
    requires
        0 <= i < ds.len(),
        layout(l, ds) is Done,
    ensures
        ds[i] matches DeclView::Data(v, x) ==> (lookup(layout(l, ds)->Done_0.entries, v) matches Some(
            item,
        ) && item.1 == x),
        ds[i] matches DeclView::Space(v, _) ==> (lookup(layout(l, ds)->Done_0.entries, v) matches Some(
            item,
        ) && item.1 == 0),
    decreases ds.len(),
{
    let prev = ds.drop_last();
    let l2 = layout(l, prev);
    if !(l2 is Done) {
        return;
    }
    let l2 = l2->Done_0;
    let last = ds.last();
    if i < ds.len() - 1 {
        lemma_layout_reads_back(l, prev, i);
        assert(prev[i] == ds[i]);
        match ds[i] {
            DeclView::Data(v, _) => {
                match last {
                    DeclView::Data(w, y) => lemma_lookup_insert(l2.entries, w, (l2.addr as u8, y), v),
                    DeclView::Space(w, n) => lemma_lookup_insert(
                        l2.entries,
                        w,
                        ((l2.addr - (n - 1)) as u8, 0u8),
                        v,
                    ),
                    DeclView::Org(_) => {},
                }
            },
            DeclView::Space(v, _) => {
                match last {
                    DeclView::Data(w, y) => lemma_lookup_insert(l2.entries, w, (l2.addr as u8, y), v),
                    DeclView::Space(w, n) => lemma_lookup_insert(
                        l2.entries,
                        w,
                        ((l2.addr - (n - 1)) as u8, 0u8),
                        v,
                    ),
                    DeclView::Org(_) => {},
                }
            },
            DeclView::Org(_) => {},
        }
    } else {
        match last {
            DeclView::Data(w, y) => lemma_lookup_insert(l2.entries, w, (l2.addr as u8, y), w),
            DeclView::Space(w, n) => lemma_lookup_insert(
                l2.entries,
                w,
                ((l2.addr - (n - 1)) as u8, 0u8),
                w,
            ),
            DeclView::Org(_) => {},
        }
    }
}

/// Once declarations are laid out and the pseudo-registers added, as `build` does, a name
/// declared `DATA x` reads back `x` and one declared `SPACE` reads back 0, unless the name
/// is one the pseudo-registers are entered under.
pub proof fn lemma_build_reads_back(l: Layout, ds: Seq<DeclView>, i: int)
    requires
        0 <= i < ds.len(),
        layout(l, ds) is Done,
    ensures
        ds[i] matches DeclView::Data(v, x) ==> (!register_name(v) ==> (lookup(
            with_registers(layout(l, ds)->Done_0.entries),
            v,
        ) matches Some(item) && item.1 == x)),
        ds[i] matches DeclView::Space(v, _) ==> (!register_name(v) ==> (lookup(
            with_registers(layout(l, ds)->Done_0.entries),
            v,
        ) matches Some(item) && item.1 == 0)),
{
    lemma_layout_reads_back(l, ds, i);
    match ds[i] {
        DeclView::Data(v, _) => if !register_name(v) {
            lemma_with_registers_other(layout(l, ds)->Done_0.entries, v);
        },
        DeclView::Space(v, _) => if !register_name(v) {
            lemma_with_registers_other(layout(l, ds)->Done_0.entries, v);
        },
        DeclView::Org(_) => {},
    }
}

/// The cells the declarations ask for: one for each `DATA`, `n` for each `SPACE n`.
pub open spec fn cells(ds: Seq<DeclView>) -> int
    decreases ds.len(),
{
    if ds.len() == 0 {
        0
    } else {
        cells(ds.drop_last()) + match ds.last() {
            DeclView::Data(_, _) => 1int,
            DeclView::Space(_, n) => n as int,
            DeclView::Org(_) => 0int,
        }
    }
}

/// Every `SPACE` of the declarations asks for at least one cell.
pub open spec fn spaces_nonempty(ds: Seq<DeclView>) -> bool {
    forall|i: int| 0 <= i < ds.len() ==> (#[trigger] ds[i] matches DeclView::Space(_, n) ==> n >= 1)
}

/// Declarations whose `SPACE`s ask for at least one cell each, and that ask for no more
/// cells than lie below the next free address, lay out without leaving the byte range.
pub proof fn lemma_layout_bounded(l: Layout, ds: Seq<DeclView>)
    requires
        spaces_nonempty(ds),
        cells(ds) <= l.addr,
    ensures
        !(layout(l, ds) is Overflow),
        layout(l, ds) matches LayoutOut::Done(l2) ==> l2.addr >= l.addr - cells(ds),
    decreases ds.len(),
{
    if ds.len() > 0 {
        let prev = ds.drop_last();
        assert forall|i: int| 0 <= i < prev.len() implies (#[trigger] prev[i] matches DeclView::Space(
            _,
            n,
        ) ==> n >= 1) by {
            assert(prev[i] == ds[i]);
        }
        assert(ds.last() == ds[ds.len() - 1]);
        match ds.last() {
            DeclView::Space(_, n) => assert(n >= 1),
            _ => {},
        }
        assert(cells(prev) >= 0) by {
            lemma_cells_nonneg(prev);
        }
        lemma_layout_bounded(l, prev);
    }
}

proof fn lemma_cells_nonneg(ds: Seq<DeclView>)
    ensures
        cells(ds) >= 0,
    decreases ds.len(),
{
    if ds.len() > 0 {
        lemma_cells_nonneg(ds.drop_last());
    }
}

/// The symbol table of the assembler.
pub struct SymbolTable {
    /// The address where the program's code starts.
    pub program_counter: u8,
    pub map: SymbolMap,
}

impl SymbolTable {
    /// Where laying out declarations starts from this table.
    pub open spec fn start(&self) -> Layout {
        Layout { pc: self.program_counter, entries: self.map@, addr: 250 }
    }

    /// Whether laying out `ds` from this table keeps every address in the byte range.
    pub open spec fn fits(&self, ds: Seq<DeclView>) -> bool {
        !(layout(self.start(), ds) is Overflow)
    }

    /// Declarations whose `SPACE`s ask for at least one cell each and that ask for at most
    /// 250 cells in all fit: `build` can lay them out.
    pub proof fn lemma_fits_bounded(&self, ds: Seq<DeclView>)
        requires
            spaces_nonempty(ds),
            cells(ds) <= 250,
        ensures
            self.fits(ds),
    {
        lemma_layout_bounded(self.start(), ds);
    }

    /// An empty table; the code starts at address 0.
    pub fn new() -> (r: Self)
        ensures
            r.program_counter == 0,
            r.map@ == Seq::<(Seq<char>, Item)>::empty(),
    {
        Self { program_counter: 0, map: SymbolMap::new() }
    }

    /// Lays out the declarations, as `build` does, and gives `None` where an address would
    /// leave the byte range.
    pub fn lay_out(&mut self, declarations: &[DataDecl]) -> (r: Option<Result<(), SyntaxError>>)
        ensures
            match layout(old(self).start(), decls_view(declarations@)) {
                LayoutOut::Done(l) => r matches Some(Ok(())) && final(self).program_counter == l.pc
                    && final(self).map@ == with_registers(l.entries),
                LayoutOut::Failed(m, l) => r matches Some(Err(e)) && e@ == m
                    && final(self).program_counter == l.pc && final(self).map@ == l.entries,
                LayoutOut::Overflow => r is None,
            },
    {
        let ghost ds = decls_view(declarations@);
        let mut current_addr: u8 = 250;
        let mut i: usize = 0;
        while i < declarations.len()
            invariant
                0 <= i <= declarations@.len(),
                ds == decls_view(declarations@),
                layout(old(self).start(), ds.take(i as int)) == LayoutOut::Done(
                    Layout { pc: self.program_counter, entries: self.map@, addr: current_addr as int },
                ),
            decreases declarations@.len() - i,
        {
            proof {
                assert(ds.take(i + 1).drop_last() =~= ds.take(i as int));
                lemma_layout_prefix(old(self).start(), ds, i + 1);
            }
            let decl = &declarations[i];
            match decl {
                DataDecl::Data(var, value) => {
                    if self.map.contains_key(var.as_str()) {
                        let mut m = String::new();
                        push_str(&mut m, "Semantic error. Var '");
                        push_str(&mut m, var.as_str());
                        push_str(&mut m, "' was already declared.");
                        return Some(Err(SyntaxError::new(m)));
                    }
                    if current_addr < 1 {
                        return None;
                    }
                    self.map.insert(var.clone(), (current_addr, *value));
                    current_addr = current_addr - 1;
                },
                DataDecl::Space(var, size) => {
                    if self.map.contains_key(var.as_str()) {
                        let mut m = String::new();
                        push_str(&mut m, "Semantic error. Var '");
                        push_str(&mut m, var.as_str());
                        push_str(&mut m, "' was already declared.");
                        return Some(Err(SyntaxError::new(m)));
                    }
                    if *size < 1 || current_addr < *size - 1 {
                        return None;
                    }
                    current_addr = current_addr - (*size - 1);
                    self.map.insert(var.clone(), (current_addr, 0u8));
                },
                DataDecl::Org(addr) => {
                    if self.program_counter != 0 {
                        let mut m = String::new();
                        push_str(&mut m, "Semantic error. Program count was already set.");
                        return Some(Err(SyntaxError::new(m)));
                    }
                    self.program_counter = *addr;
                },
            }
            i = i + 1;
        }
        proof {
            assert(ds.take(i as int) =~= ds);
        }
        self.map.insert("t0".to_string(), (251, 0));
        self.map.insert("t1".to_string(), (252, 0));
        self.map.insert("t2".to_string(), (253, 0));
        self.map.insert("t3".to_string(), (254, 0));
        self.map.insert("t4".to_string(), (255, 0));
        Some(Ok(()))
    }

    /// Lays out the declarations: each name gets an address and an initial value, `ORG`
    /// sets the program counter; then the pseudo-registers are added. A name declared
    /// twice, or a second `ORG` once the counter is set, is an error, and the table is left
    /// as far as it got.
    pub fn build(&mut self, declarations: &[DataDecl]) -> (r: Result<(), SyntaxError>)
        requires
            old(self).fits(decls_view(declarations@)),
        ensures
            match layout(old(self).start(), decls_view(declarations@)) {
                LayoutOut::Done(l) => r is Ok && final(self).program_counter == l.pc
                    && final(self).map@ == with_registers(l.entries),
                LayoutOut::Failed(m, l) => r matches Err(e) && e@ == m
                    && final(self).program_counter == l.pc && final(self).map@ == l.entries,
                LayoutOut::Overflow => false,
            },
    {
        match self.lay_out(declarations) {
            Some(r) => r,
            None => {
                assert(false);
                Ok(())
            },
        }
    }
}

/// Laying out a prefix that overflows makes the whole overflow, and one that fails makes
/// the whole fail the same way.
proof fn lemma_layout_prefix(l: Layout, ds: Seq<DeclView>, n: int)
    requires
        0 <= n <= ds.len(),
    ensures
        layout(l, ds.take(n)) is Overflow ==> layout(l, ds) is Overflow,
        layout(l, ds.take(n)) is Failed ==> layout(l, ds) == layout(l, ds.take(n)),
    decreases ds.len() - n,
{
    if n < ds.len() {
        lemma_layout_prefix(l, ds, n + 1);
        assert(ds.take(n + 1).drop_last() =~= ds.take(n));
    } else {
        assert(ds.take(n) =~= ds);
    }
}

impl Default for SymbolTable {
    fn default() -> (r: Self)
        ensures
            r.program_counter == 0,
            r.map@ == Seq::<(Seq<char>, Item)>::empty(),
    {
        Self::new()
    }
}

} // verus!
