//! The state of resolution: the global symbol table, the stack of local tables of the
//! blocks being resolved, the function being resolved, and the errors so far.
use vstd::prelude::*;

use crate::ast_resolved::errors::ResolveError;
use crate::ids::{NIL_ID, SymbolID};
use crate::symbol_table::{Symbol, SymbolTable, SymbolTableEntry, visible_symbol};

verus! {

pub struct ResolveContext {
    errors: Vec<ResolveError>,
    global_table: SymbolTable,
    local_tables: Vec<SymbolID>,
    func_sym_id: SymbolID,
}

/// `id` names a well-formed table nested in `g`.
pub open spec fn local_ok(g: SymbolTable, id: SymbolID) -> bool {
    &&& g.ids().contains(id)
    &&& g.entry(id) is Table
    &&& g.entry(id)->Table_0.wf()
}

/// The symbol that `name` names from inside the local tables `locals` (innermost last):
/// the innermost table that has the name decides; the global table comes last.
pub open spec fn scope_lookup(g: SymbolTable, locals: Seq<SymbolID>, name: Seq<char>) -> Option<
    SymbolID,
>
    decreases locals.len(),
{
    if locals.len() == 0 {
        if g.names().contains_key(name) {
            Some(g.names()[name])
        } else {
            None
        }
    } else {
        let t = g.entry(locals.last())->Table_0;
        if t.names().contains_key(name) {
            Some(t.names()[name])
        } else {
            scope_lookup(g, locals.drop_last(), name)
        }
    }
}

/// The table that decides what `name` names from inside the local tables `locals`: the
/// innermost one that has the name, else the global table (`NIL_ID`) if it has it.
pub open spec fn scope_table(g: SymbolTable, locals: Seq<SymbolID>, name: Seq<char>) -> Option<
    SymbolID,
>
    decreases locals.len(),
{
    if locals.len() == 0 {
        if g.names().contains_key(name) {
            Some(NIL_ID)
        } else {
            None
        }
    } else {
        let t = g.entry(locals.last())->Table_0;
        if t.names().contains_key(name) {
            Some(locals.last())
        } else {
            scope_table(g, locals.drop_last(), name)
        }
    }
}

/// The table under `t` in `g`: `g` itself for `NIL_ID`.
pub open spec fn table_at(g: SymbolTable, t: SymbolID) -> SymbolTable {
    if t == NIL_ID {
        g
    } else {
        g.entry(t)->Table_0
    }
}

/// The entry that `name` names in the table under `t`.
pub open spec fn named_entry(g: SymbolTable, t: SymbolID, name: Seq<char>) -> SymbolTableEntry {
    table_at(g, t).entry(table_at(g, t).names()[name])
}

/// The table that decides a name holds the identifier the name is looked up to.
pub proof fn lemma_scope_table_lookup(g: SymbolTable, locals: Seq<SymbolID>, name: Seq<char>)
    requires
        g.wf(),
        forall|i: int| 0 <= i < locals.len() ==> #[trigger] local_ok(g, locals[i]),
    ensures
        scope_lookup(g, locals, name) is None <==> scope_table(g, locals, name) is None,
        scope_table(g, locals, name) matches Some(t) ==> scope_lookup(g, locals, name) == Some(
            table_at(g, t).names()[name],
        ),
    decreases locals.len(),
{
    if locals.len() > 0 {
        g.lemma_wf();
        assert(local_ok(g, locals[locals.len() - 1]));
        let t = g.entry(locals.last())->Table_0;
        if !t.names().contains_key(name) {
            assert forall|i: int| 0 <= i < locals.drop_last().len() implies #[trigger] local_ok(
                g,
                locals.drop_last()[i],
            ) by {
                assert(local_ok(g, locals[i]));
            }
            lemma_scope_table_lookup(g, locals.drop_last(), name);
        }
    }
}

/// Resolution went on from `old` to `new`: the same scopes and function, errors only
/// appended, global names kept, entries only added, and symbols kept.
pub open spec fn extends(old: ResolveContext, new: ResolveContext) -> bool {
    &&& new.wf()
    &&& new.locals() == old.locals()
    &&& new.func_id() == old.func_id()
    &&& old.errors().len() <= new.errors().len()
    &&& new.errors().subrange(0, old.errors().len() as int) == old.errors()
    &&& new.global().names() == old.global().names()
    &&& old.global().ids().subset_of(new.global().ids())
    &&& forall|k: SymbolID| #[trigger]
        old.global().ids().contains(k) && old.global().entry(k) is Symbol ==> new.global().entry(k)
            == old.global().entry(k)
}

/// The tables of the scopes open in `old` hold the same entries in `new`: nothing was
/// entered in them.
pub open spec fn scopes_kept(old: ResolveContext, new: ResolveContext) -> bool {
    forall|i: int|
        0 <= i < old.locals().len() ==> new.global().entry(#[trigger] old.locals()[i])
            == old.global().entry(old.locals()[i])
}

/// The tables of the scopes open in `old`, other than the innermost one, hold the same
/// entries in `new`.
pub open spec fn outer_scopes_kept(old: ResolveContext, new: ResolveContext) -> bool {
    forall|i: int|
        0 <= i < old.locals().len() && old.locals()[i] != old.locals().last() ==> new.global().entry(
            #[trigger] old.locals()[i],
        ) == old.global().entry(old.locals()[i])
}

pub proof fn lemma_extends_trans(a: ResolveContext, b: ResolveContext, c: ResolveContext)
    requires
        extends(a, b),
        extends(b, c),
    ensures
        extends(a, c),
{
    assert(c.errors().subrange(0, a.errors().len() as int) =~= c.errors().subrange(
        0,
        b.errors().len() as int,
    ).subrange(0, a.errors().len() as int));
}

/// The function being resolved stays the one being resolved.
pub proof fn lemma_in_function_kept(a: ResolveContext, b: ResolveContext)
    requires
        extends(a, b),
    ensures
        a.in_function() ==> b.in_function() && b.func() == a.func(),
{
    if a.in_function() {
        assert(a.global().ids().contains(a.func_id()) && a.global().entry(a.func_id()) is Symbol);
        assert(b.global().entry(a.func_id()) == a.global().entry(a.func_id()));
    }
}

pub proof fn lemma_extends_refl(a: ResolveContext)
    requires
        a.wf(),
    ensures
        extends(a, a),
{
    assert(a.errors().subrange(0, a.errors().len() as int) =~= a.errors());
}

impl ResolveContext {
    pub closed spec fn errors(&self) -> Seq<ResolveError> {
        self.errors@
    }

    pub closed spec fn global(&self) -> SymbolTable {
        self.global_table
    }

    pub closed spec fn locals(&self) -> Seq<SymbolID> {
        self.local_tables@
    }

    pub closed spec fn func_id(&self) -> SymbolID {
        self.func_sym_id
    }

    pub open spec fn wf(&self) -> bool {
        &&& self.global().wf()
        &&& forall|i: int|
            0 <= i < self.locals().len() ==> #[trigger] local_ok(self.global(), self.locals()[i])
    }

    /// A function is being resolved, and its symbol is in the global table.
    pub open spec fn in_function(&self) -> bool {
        &&& self.func_id() != NIL_ID
        &&& self.global().ids().contains(self.func_id())
        &&& self.global().entry(self.func_id()) matches SymbolTableEntry::Symbol(Symbol::Function(_))
    }

    /// The function symbol being resolved.
    pub open spec fn func(&self) -> crate::symbol_table::FuncSymbol {
        self.global().entry(self.func_id())->Symbol_0->Function_0
    }

    pub fn new(global_table: SymbolTable) -> (r: ResolveContext)
        requires
            global_table.wf(),
        ensures
            r.wf(),
            r.errors().len() == 0,
            r.global() == global_table,
            r.locals().len() == 0,
            r.func_id() == NIL_ID,
    {
        ResolveContext {
            errors: Vec::new(),
            global_table,
            local_tables: Vec::new(),
            func_sym_id: NIL_ID,
        }
    }

    pub fn set_func_symbol_id(&mut self, id: SymbolID)
        requires
            old(self).func_id() == NIL_ID,
        ensures
            final(self).func_id() == id,
            final(self).errors() == old(self).errors(),
            final(self).global() == old(self).global(),
            final(self).locals() == old(self).locals(),
    {
        self.func_sym_id = id;
    }

    pub fn unset_func_symbol_id(&mut self)
        requires
            old(self).locals().len() == 0,
        ensures
            final(self).func_id() == NIL_ID,
            final(self).errors() == old(self).errors(),
            final(self).global() == old(self).global(),
            final(self).locals() == old(self).locals(),
    {
        self.func_sym_id = NIL_ID;
    }

    pub fn get_func_symbol_id(&self) -> (r: SymbolID)
        requires
            self.func_id() != NIL_ID,
        ensures
            r == self.func_id(),
    {
        self.func_sym_id
    }

    pub fn get_current_table_id(&self) -> (r: Option<SymbolID>)
        ensures
            self.locals().len() == 0 ==> r is None,
            self.locals().len() > 0 ==> r == Some(self.locals().last()),
    {
        if self.local_tables.len() == 0 {
            None
        } else {
            Some(self.local_tables[self.local_tables.len() - 1])
        }
    }

    /// Opens a new local table, a child of the current one, in the global table.
    pub fn push_local(&mut self) -> (r: SymbolID)
        requires
            old(self).wf(),
        ensures
            final(self).wf(),
            final(self).locals() == old(self).locals().push(r),
            final(self).func_id() == old(self).func_id(),
            final(self).errors() == old(self).errors(),
            final(self).global().names() == old(self).global().names(),
            !old(self).global().ids().contains(r),
            final(self).global().ids() == old(self).global().ids().insert(r),
            final(self).global().entry(r) matches SymbolTableEntry::Table(t) && t.ids().len() == 0
                && t.names() == Map::<Seq<char>, SymbolID>::empty(),
            forall|k: SymbolID| #[trigger]
                old(self).global().ids().contains(k) ==> final(self).global().entry(k) == old(self).global().entry(k),
    {
        let table = SymbolTable::new();
        let current_id = match self.get_current_table_id() {
            Some(id) => id,
            None => NIL_ID,
        };
        let ghost t0 = table;
        let table_id = self.global_table.new_entry(current_id, SymbolTableEntry::Table(table));
        self.local_tables.push(table_id);
        proof {
            t0.lemma_with_id(table_id);
            assert forall|i: int| 0 <= i < self.locals().len() implies #[trigger] local_ok(
                self.global(),
                self.locals()[i],
            ) by {
                if i < old(self).locals().len() {
                    assert(local_ok(old(self).global(), old(self).locals()[i]));
                }
            }
        }
        table_id
    }

    /// Closes the innermost local table (it stays in the global table).
    pub fn pop_local(&mut self)
        requires
            old(self).wf(),
            old(self).locals().len() > 0,
        ensures
            final(self).wf(),
            final(self).locals() == old(self).locals().drop_last(),
            final(self).func_id() == old(self).func_id(),
            final(self).errors() == old(self).errors(),
            final(self).global() == old(self).global(),
    {
        self.local_tables.pop();
        proof {
            assert forall|i: int| 0 <= i < self.locals().len() implies #[trigger] local_ok(
                self.global(),
                self.locals()[i],
            ) by {
                assert(local_ok(old(self).global(), old(self).locals()[i]));
            }
        }
    }

    /// Enters `symbol` under `name` in the current table (the innermost local one, or the
    /// global one); `None` when the name is taken there.
    pub fn new_symbol(&mut self, name: &str, symbol: Symbol) -> (r: Option<SymbolID>)
        requires
            old(self).wf(),
        ensures
            final(self).wf(),
            final(self).locals() == old(self).locals(),
            final(self).func_id() == old(self).func_id(),
            final(self).errors() == old(self).errors(),
            old(self).locals().len() > 0 ==> final(self).global().names() == old(self).global().names(),
            old(self).global().ids().subset_of(final(self).global().ids()),
            forall|k: SymbolID| #[trigger]
                old(self).global().ids().contains(k) && old(self).global().entry(k) is Symbol
                    ==> final(self).global().entry(k) == old(self).global().entry(k),
            old(self).locals().len() == 0 ==> (!old(self).global().names().contains_key(name@) <==> r is Some),
            old(self).locals().len() == 0 ==> (r is Some ==> final(self).global().names().contains_key(name@)),
            old(self).locals().len() == 0 ==> (r is None ==> final(self).global() == old(self).global()),
            old(self).locals().len() == 0 ==> (r matches Some(id) ==> final(self).global().entry(id)
                == SymbolTableEntry::Symbol(symbol).with_id(id) && final(self).global().names()
                == old(self).global().names().insert(name@, id) && final(self).global().ids() == old(self).global().ids().insert(id) && !old(self).global().ids().contains(id)),
            old(self).locals().len() == 0 ==> old(self).global().names().submap_of(final(self).global().names()),
            old(self).locals().len() > 0 ==> (!old(self).current_table().names().contains_key(name@) <==> r is Some),
            old(self).locals().len() > 0 ==> (r is Some ==> final(self).current_table().names().contains_key(name@)),
            old(self).locals().len() > 0 ==> forall|k: SymbolID| #[trigger]
                old(self).global().ids().contains(k) && k != old(self).locals().last() ==> final(self).global().entry(k) == old(self).global().entry(k),
            old(self).locals().len() > 0 && r is None ==> forall|k: SymbolID| #[trigger]
                old(self).global().ids().contains(k) ==> final(self).global().entry(k) == old(self).global().entry(k),
            old(self).locals().len() > 0 ==> (r matches Some(id) ==> final(self).current_table().names()
                == old(self).current_table().names().insert(name@, id) && final(self).current_table().entry(id)
                == SymbolTableEntry::Symbol(symbol).with_id(id)),
    {
        let parent_id = match self.get_current_table_id() {
            Some(id) => id,
            None => NIL_ID,
        };
        if self.local_tables.len() == 0 {
            let r = self.global_table.new_named_entry(parent_id, name, SymbolTableEntry::Symbol(symbol));
            proof {
                if r is Some {
                    assert(old(self).global().names().submap_of(self.global().names()));
                }
            }
            r
        } else {
            let current = self.local_tables[self.local_tables.len() - 1];
            proof {
                assert(local_ok(self.global(), self.locals()[self.locals().len() - 1]));
            }
            let r = self.global_table.new_named_entry_in(
                current,
                parent_id,
                name,
                SymbolTableEntry::Symbol(symbol),
            );
            proof {
                assert forall|i: int| 0 <= i < self.locals().len() implies #[trigger] local_ok(
                    self.global(),
                    self.locals()[i],
                ) by {
                    assert(local_ok(old(self).global(), old(self).locals()[i]));
                }
            }
            r
        }
    }

    /// The symbol under `id` in the global table.
    pub fn get_global_symbol(&self, id: SymbolID) -> (r: Option<&Symbol>)
        requires
            self.wf(),
        ensures
            r is Some <==> self.global().ids().contains(id) && self.global().entry(id) is Symbol,
            r matches Some(s) ==> self.global().entry(id) == SymbolTableEntry::Symbol(*s),
    {
        self.global_table.get_symbol(id)
    }

    /// The innermost local table.
    pub open spec fn current_table(&self) -> SymbolTable {
        self.global().entry(self.locals().last())->Table_0
    }

    /// The symbol under `id`: looked up in the local tables from the innermost, then in
    /// the global table.
    pub fn get_symbol(&self, id: SymbolID) -> (r: Option<&Symbol>)
        requires
            self.wf(),
        ensures
            self.locals().len() == 0 ==> (r is Some <==> self.global().ids().contains(id)
                && self.global().entry(id) is Symbol),
            r matches Some(s) ==> (self.global().ids().contains(id) && self.global().entry(id)
                == SymbolTableEntry::Symbol(*s)) || exists|i: int|
                0 <= i < self.locals().len() && #[trigger] self.global().entry(
                    self.locals()[i],
                )->Table_0.ids().contains(id) && self.global().entry(
                    self.locals()[i],
                )->Table_0.entry(id) == SymbolTableEntry::Symbol(*s),
            r is Some <==> visible_symbol(self.locals(), self.global(), id) is Some,
            r matches Some(s) ==> visible_symbol(self.locals(), self.global(), id) == Some(*s),
    {
        let mut i = self.local_tables.len();
        proof {
            assert(self.locals().take(i as int) =~= self.locals());
        }
        while i > 0
            invariant
                i <= self.locals().len(),
                self.wf(),
                visible_symbol(self.locals(), self.global(), id) == visible_symbol(
                    self.locals().take(i as int),
                    self.global(),
                    id,
                ),
            decreases i,
        {
            let table_id = self.local_tables[i - 1];
            proof {
                assert(local_ok(self.global(), self.locals()[i - 1]));
                let cur = self.locals().take(i as int);
                assert(cur.last() == self.locals()[i - 1]);
                assert(cur.drop_last() =~= self.locals().take(i - 1));
            }
            let table = match self.global_table.get_table(table_id) {
                Some(t) => t,
                None => {
                    assert(false);
                    return None;
                },
            };
            match table.get_symbol(id) {
                Some(s) => {
                    return Some(s);
                },
                None => {},
            }
            i = i - 1;
        }
        self.global_table.get_symbol(id)
    }

    /// The identifier `name` names in the current scopes (see `scope_lookup`).
    pub fn get_symbol_id_by_name(&self, name: &str) -> (r: Option<SymbolID>)
        requires
            self.wf(),
        ensures
            r == scope_lookup(self.global(), self.locals(), name@),
    {
        let mut i = self.local_tables.len();
        proof {
            assert(self.locals().subrange(0, i as int) =~= self.locals());
        }
        while i > 0
            invariant
                i <= self.locals().len(),
                self.wf(),
                scope_lookup(self.global(), self.locals(), name@) == scope_lookup(
                    self.global(),
                    self.locals().subrange(0, i as int),
                    name@,
                ),
            decreases i,
        {
            let table_id = self.local_tables[i - 1];
            proof {
                assert(local_ok(self.global(), self.locals()[i - 1]));
                let sub = self.locals().subrange(0, i as int);
                assert(sub.last() == table_id);
                assert(sub.drop_last() =~= self.locals().subrange(0, i - 1));
            }
            let table = match self.global_table.get_table(table_id) {
                Some(t) => t,
                None => {
                    assert(false);
                    return None;
                },
            };
            match table.get_symbol_id_by_name(name) {
                Some(id) => {
                    return Some(id);
                },
                None => {},
            }
            i = i - 1;
        }
        self.global_table.get_symbol_id_by_name(name)
    }

    /// The symbol `name` names in the current scopes, and the table (`NIL_ID` for the
    /// global one) it is in.
    pub fn get_symbol_by_name(&self, name: &str) -> (r: Option<(&Symbol, SymbolID)>)
        requires
            self.wf(),
        ensures
            r is Some <==> (scope_table(self.global(), self.locals(), name@) matches Some(t)
                && named_entry(self.global(), t, name@) is Symbol),
            r matches Some((s, t)) ==> scope_table(self.global(), self.locals(), name@) == Some(t)
                && named_entry(self.global(), t, name@) == SymbolTableEntry::Symbol(*s),
    {
        let mut i = self.local_tables.len();
        proof {
            assert(self.locals().subrange(0, i as int) =~= self.locals());
        }
        while i > 0
            invariant
                i <= self.locals().len(),
                self.wf(),
                scope_table(self.global(), self.locals(), name@) == scope_table(
                    self.global(),
                    self.locals().subrange(0, i as int),
                    name@,
                ),
            decreases i,
        {
            let table_id = self.local_tables[i - 1];
            proof {
                assert(local_ok(self.global(), self.locals()[i - 1]));
                self.global().lemma_wf();
                let sub = self.locals().subrange(0, i as int);
                assert(sub.last() == table_id);
                assert(sub.drop_last() =~= self.locals().subrange(0, i - 1));
            }
            let table = match self.global_table.get_table(table_id) {
                Some(t) => t,
                None => {
                    assert(false);
                    return None;
                },
            };
            if table.name_exists(name) {
                return match table.get_symbol_by_name(name) {
                    Some(s) => Some((s, table_id)),
                    None => None,
                };
            }
            i = i - 1;
        }
        match self.global_table.get_symbol_by_name(name) {
            Some(s) => Some((s, NIL_ID)),
            None => None,
        }
    }

    /// The symbol named `name` in the current table.
    pub fn current_symbol_by_name(&self, name: &str) -> (r: Option<&Symbol>)
        requires
            self.wf(),
        ensures
            self.locals().len() == 0 ==> (r is Some <==> self.global().names().contains_key(name@)
                && self.global().entry(self.global().names()[name@]) is Symbol),
            self.locals().len() == 0 ==> (r matches Some(s) ==> self.global().entry(
                self.global().names()[name@],
            ) == SymbolTableEntry::Symbol(*s)),
            self.locals().len() > 0 ==> (r is Some <==> self.current_table().names().contains_key(
                name@,
            ) && self.current_table().entry(self.current_table().names()[name@]) is Symbol),
            self.locals().len() > 0 ==> (r matches Some(s) ==> self.current_table().entry(
                self.current_table().names()[name@],
            ) == SymbolTableEntry::Symbol(*s)),
    {
        if self.local_tables.len() == 0 {
            self.global_table.get_symbol_by_name(name)
        } else {
            let table_id = self.local_tables[self.local_tables.len() - 1];
            proof {
                assert(local_ok(self.global(), self.locals()[self.locals().len() - 1]));
            }
            match self.global_table.get_table(table_id) {
                Some(t) => t.get_symbol_by_name(name),
                None => None,
            }
        }
    }

    pub fn push_error(&mut self, e: ResolveError)
        ensures
            final(self).errors() == old(self).errors().push(e),
            final(self).global() == old(self).global(),
            final(self).locals() == old(self).locals(),
            final(self).func_id() == old(self).func_id(),
    {
        self.errors.push(e);
    }

    /// The global table when no error was recorded, the errors otherwise.
    pub fn finalize(self) -> (r: Result<SymbolTable, Vec<ResolveError>>)
        ensures
            r is Ok <==> self.errors().len() == 0,
            r matches Ok(t) ==> t == self.global(),
            r matches Err(v) ==> v@ == self.errors(),
    {
        if self.errors.len() == 0 {
            Ok(self.global_table)
        } else {
            Err(self.errors)
        }
    }
}

} // verus!
