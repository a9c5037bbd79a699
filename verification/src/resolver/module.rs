//! Calls of functions of imported modules: `import math` then `math.gcd(a, b)`, or
//! `from math import gcd` then `gcd(a, b)`, become calls of the runtime's `__math__gcd`.
//!
//! Imports take effect in the innermost enclosing function and for the statements after
//! them; they leave no statement behind.
use vstd::prelude::*;
use crate::ast::{
    copy_expr, copy_string, copy_strings, no_expr, no_stmt, strings_view, views, Assign,
    BinaryOperation, BoolOperation, CallFunction, CallMethod, Compare, Dict, Expr, ExprV, FromImport,
    Func, If, Import, Index, Statement, StmtV, UnaryOperation, While,
};
use crate::resolver::sorted::{increasing, keys_of};
use crate::text::{chars_of, concat, concat_strings, str_eq, string_eq, string_from, string_of};

verus! {

/// A list of (name, target) entries; a later entry for a name replaces the earlier ones.
pub type Entries = Seq<(Seq<char>, Seq<char>)>;

/// The target of `k`: that of its last entry.
pub open spec fn lookup(m: Entries, k: Seq<char>) -> Option<Seq<char>>
    decreases m.len(),
{
    if m.len() == 0 {
        None
    } else if m.last().0 == k {
        Some(m.last().1)
    } else {
        lookup(m.drop_last(), k)
    }
}

/// The name of `key` below `module`: what follows `module.` when no further dot does.
pub open spec fn child_of(key: Seq<char>, module: Seq<char>) -> Option<Seq<char>> {
    let p = module.push('.');
    if p.is_prefix_of(key) && !key.skip(p.len() as int).contains('.') {
        Some(key.skip(p.len() as int))
    } else {
        None
    }
}

/// The (child name, target) entries of the functions directly below `module`, in order.
pub open spec fn children(m: Entries, module: Seq<char>) -> Entries
    decreases m.len(),
{
    if m.len() == 0 {
        seq![]
    } else {
        children(m.drop_last(), module) + match child_of(m.last().0, module) {
            Some(c) => seq![(c, m.last().1)],
            None => seq![],
        }
    }
}

/// The functions of the Python modules that the runtime provides, by dotted name.
pub open spec fn known_modules() -> Entries {
    seq![
        ("collections.deque"@, "__collections__deque__macro__"@),
        ("math.exp"@, "__math__exp"@),
        ("math.gcd"@, "__math__gcd"@),
        ("math.log"@, "__math__log"@),
        ("sys.setrecursionlimit"@, "__sys__setrecursionlimit"@),
    ]
}

/// The module functions, by dotted name, in increasing order of names.
pub struct ModuleMap {
    pub modules: Vec<(String, String)>,
}

impl View for ModuleMap {
    type V = Entries;

    open spec fn view(&self) -> Entries {
        Seq::new(self.modules@.len(), |i: int| (self.modules@[i].0@, self.modules@[i].1@))
    }
}

fn entry(name: &str, target: &str) -> (r: (String, String))
    ensures
        r.0@ == name@,
        r.1@ == target@,
{
    (string_of(name), string_of(target))
}

impl Default for ModuleMap {
    fn default() -> (r: Self)
        ensures
            r@ == known_modules(),
    {
        let modules = vec![
            entry("collections.deque", "__collections__deque__macro__"),
            entry("math.exp", "__math__exp"),
            entry("math.gcd", "__math__gcd"),
            entry("math.log", "__math__log"),
            entry("sys.setrecursionlimit", "__sys__setrecursionlimit"),
        ];
        let r = ModuleMap { modules };
        proof {
            assert(r@ =~= known_modules());
        }
        r
    }
}

/// The name of `key` below `module`, if `key` names a function directly below it.
fn child_name(key: &String, module: &String) -> (r: Option<String>)
    ensures
        match r {
            Some(c) => child_of(key@, module@) == Some(c@),
            None => child_of(key@, module@) is None,
        },
{
    let k = chars_of(key.as_str());
    let m = chars_of(module.as_str());
    let ghost p = module@.push('.');
    if k.len() <= m.len() {
        proof {
            assert(!p.is_prefix_of(key@));
        }
        return None;
    }
    let mut i: usize = 0;
    while i < m.len()
        invariant
            i <= m.len(),
            m.len() < k.len(),
            k@ == key@,
            m@ == module@,
            p == module@.push('.'),
            forall|j: int| 0 <= j < i ==> k@[j] == m@[j],
        decreases m.len() - i,
    {
        if k[i] != m[i] {
            proof {
                assert(p[i as int] == m@[i as int]);
                assert(!p.is_prefix_of(key@));
            }
            return None;
        }
        i += 1;
    }
    if k[m.len()] != '.' {
        proof {
            assert(p[m.len() as int] == '.');
            assert(!p.is_prefix_of(key@));
        }
        return None;
    }
    proof {
        assert forall|j: int| 0 <= j < p.len() implies p[j] == key@[j] by {
            if j < m.len() {
                assert(k@[j] == m@[j]);
            }
        }
        assert(p.is_prefix_of(key@));
    }
    let start = m.len() + 1;
    let mut j: usize = start;
    while j < k.len()
        invariant
            start <= j <= k.len(),
            start == p.len(),
            p == module@.push('.'),
            p.is_prefix_of(key@),
            k@ == key@,
            forall|q: int| start <= q < j ==> k@[q] != '.',
        decreases k.len() - j,
    {
        if k[j] == '.' {
            proof {
                assert(key@.skip(start as int)[j - start] == '.');
                assert(key@.skip(start as int).contains('.'));
            }
            return None;
        }
        j += 1;
    }
    proof {
        assert forall|q: int| 0 <= q < key@.skip(start as int).len() implies key@.skip(start as int)[q] != '.' by {
            assert(key@.skip(start as int)[q] == k@[q + start]);
        }
    }
    let c = string_from(&k, start, k.len());
    proof {
        assert(c@ =~= key@.skip(start as int));
    }
    Some(c)
}

impl ModuleMap {
    pub open spec fn wf(&self) -> bool {
        increasing(keys_of(Seq::new(self@.len(), |i: int| (self@[i].0, seq![self@[i].1]))))
    }

    /// The functions directly below `module`: (their name below it, their target).
    pub fn find_children(&self, module: &String) -> (r: Vec<(String, String)>)
        ensures
            Seq::new(r@.len(), |i: int| (r@[i].0@, r@[i].1@)) == children(self@, module@),
    {
        let mut result: Vec<(String, String)> = Vec::new();
        let mut i: usize = 0;
        proof {
            assert(self@.take(0) =~= Seq::<(Seq<char>, Seq<char>)>::empty());
        }
        while i < self.modules.len()
            invariant
                i <= self.modules.len(),
                Seq::new(result@.len(), |k: int| (result@[k].0@, result@[k].1@)) == children(self@.take(i as int), module@),
            decreases self.modules.len() - i,
        {
            let ghost before = Seq::new(result@.len(), |k: int| (result@[k].0@, result@[k].1@));
            let (key, value) = (&self.modules[i].0, &self.modules[i].1);
            let c = child_name(key, module);
            proof {
                assert(self@.take(i + 1).drop_last() =~= self@.take(i as int));
                assert(self@.take(i + 1).last() == (key@, value@));
            }
            match c {
                Some(c) => {
                    let ghost cv = c@;
                    result.push((c, copy_string(value)));
                    proof {
                        assert(Seq::new(result@.len(), |k: int| (result@[k].0@, result@[k].1@)) =~= before + seq![(cv, value@)]);
                    }
                },
                None => {
                    proof {
                        assert(before + Seq::<(Seq<char>, Seq<char>)>::empty() =~= before);
                    }
                },
            }
            i += 1;
        }
        proof {
            assert(self@.take(i as int) =~= self@);
        }
        result
    }

    /// The target of the dotted name `module_function`.
    pub fn find_match(&self, module_function: &String) -> (r: Option<String>)
        ensures
            match r {
                Some(x) => lookup(self@, module_function@) == Some(x@),
                None => lookup(self@, module_function@) is None,
            },
    {
        let mut i: usize = self.modules.len();
        proof {
            assert(self@.take(i as int) =~= self@);
        }
        while i > 0
            invariant
                i <= self.modules.len(),
                lookup(self@, module_function@) == lookup(self@.take(i as int), module_function@),
            decreases i,
        {
            assert(self@.take(i as int).drop_last() =~= self@.take(i - 1));
            if string_eq(&self.modules[i - 1].0, module_function) {
                return Some(copy_string(&self.modules[i - 1].1));
            }
            i -= 1;
        }
        None
    }
}

/// The target of `k` in the innermost layer that has one.
pub open spec fn find_in(layers: Seq<Entries>, k: Seq<char>) -> Option<Seq<char>>
    decreases layers.len(),
{
    if layers.len() == 0 {
        None
    } else {
        match lookup(layers.last(), k) {
            Some(x) => Some(x),
            None => find_in(layers.drop_last(), k),
        }
    }
}

/// The layers with `extra` added to the innermost one.
pub open spec fn with_top(layers: Seq<Entries>, extra: Entries) -> Seq<Entries> {
    layers.update(layers.len() - 1, layers.last() + extra)
}

/// The entries that `import module as alias` adds: `alias.f` for each function `f`.
pub open spec fn import_entries(map: Entries, module: Seq<char>, alias: Seq<char>) -> Entries {
    Seq::new(children(map, module).len(), |i: int|
        (alias + "."@ + children(map, module)[i].0, children(map, module)[i].1))
}

/// The entries that `from module import name as alias` adds (all of the module's
/// functions for `*`).
pub open spec fn from_import_entries(map: Entries, from: Seq<char>, name: Seq<char>, alias: Seq<char>) -> Entries {
    if name == "*"@ {
        children(map, from)
    } else {
        match lookup(map, from + "."@ + name) {
            Some(target) => seq![(alias, target)],
            None => seq![],
        }
    }
}

/// The layers of imports in force, innermost last, and the module functions.
pub struct EnabledModules<'a> {
    pub layers: Vec<Vec<(String, String)>>,
    pub module_map: &'a ModuleMap,
}

pub open spec fn entries_view(v: Seq<(String, String)>) -> Entries {
    Seq::new(v.len(), |i: int| (v[i].0@, v[i].1@))
}

impl<'a> EnabledModules<'a> {
    pub open spec fn layers_view(&self) -> Seq<Entries> {
        Seq::new(self.layers@.len(), |i: int| entries_view(self.layers@[i]@))
    }

    pub fn new(module_map: &'a ModuleMap) -> (r: Self)
        ensures
            r.layers_view() == Seq::<Entries>::empty(),
            r.module_map == module_map,
    {
        let r = EnabledModules { layers: Vec::new(), module_map };
        proof { assert(r.layers_view() =~= Seq::<Entries>::empty()); }
        r
    }

    /// Opens a layer for the imports of a function.
    pub fn push_layer(&mut self)
        ensures
            final(self).layers_view() == old(self).layers_view().push(Seq::empty()),
            final(self).module_map == old(self).module_map,
    {
        let ghost before = self.layers_view();
        self.layers.push(Vec::new());
        proof {
            assert(entries_view(self.layers@[self.layers@.len() - 1]@) =~= Seq::<(Seq<char>, Seq<char>)>::empty());
            assert(self.layers_view() =~= before.push(Seq::empty()));
        }
    }

    /// Closes the innermost layer.
    pub fn pop_layer(&mut self)
        requires
            old(self).layers_view().len() > 0,
        ensures
            final(self).layers_view() == old(self).layers_view().drop_last(),
            final(self).module_map == old(self).module_map,
    {
        let ghost before = self.layers_view();
        let _ = self.layers.pop();
        proof {
            assert(self.layers_view() =~= before.drop_last());
        }
    }

    fn add_to_top(&mut self, extra: Vec<(String, String)>)
        requires
            old(self).layers_view().len() > 0,
        ensures
            final(self).layers_view() == with_top(old(self).layers_view(), entries_view(extra@)),
            final(self).module_map == old(self).module_map,
    {
        let ghost before = self.layers_view();
        let mut top = self.layers.pop().unwrap();
        let ghost tv = entries_view(top@);
        let mut extra = extra;
        let ghost ev = entries_view(extra@);
        top.append(&mut extra);
        proof {
            assert(entries_view(top@) =~= tv + ev);
        }
        self.layers.push(top);
        proof {
            assert(self.layers_view() =~= with_top(before, ev));
        }
    }

    /// `import module as alias`.
    pub fn declare_import(&mut self, import: &Import)
        requires
            old(self).layers_view().len() > 0,
        ensures
            final(self).layers_view() == with_top(old(self).layers_view(),
                import_entries(old(self).module_map@, import.import@, import.alias@)),
            final(self).module_map == old(self).module_map,
    {
        let imported = self.module_map.find_children(&import.import);
        let ghost cs = children(self.module_map@, import.import@);
        let mut extra: Vec<(String, String)> = Vec::new();
        let mut i: usize = 0;
        while i < imported.len()
            invariant
                i <= imported.len(),
                Seq::new(imported@.len(), |k: int| (imported@[k].0@, imported@[k].1@)) == cs,
                entries_view(extra@) == import_entries(self.module_map@, import.import@, import.alias@).take(i as int),
                cs == children(self.module_map@, import.import@),
            decreases imported.len() - i,
        {
            let prefixed = concat(&import.alias, ".");
            let name = concat_strings(&prefixed, &imported[i].0);
            let ghost before = entries_view(extra@);
            let ghost item = (name@, imported@[i as int].1@);
            extra.push((name, copy_string(&imported[i].1)));
            proof {
                assert(entries_view(extra@) =~= before.push(item));
                assert(item.0 =~= import.alias@ + "."@ + imported@[i as int].0@);
                assert(cs[i as int] == (imported@[i as int].0@, imported@[i as int].1@));
                assert(entries_view(extra@) =~= import_entries(self.module_map@, import.import@, import.alias@).take(i + 1));
            }
            i += 1;
        }
        proof {
            assert(import_entries(self.module_map@, import.import@, import.alias@).take(i as int)
                =~= import_entries(self.module_map@, import.import@, import.alias@));
        }
        self.add_to_top(extra);
    }

    /// `from module import name as alias`, or `from module import *`.
    pub fn declare_from_import(&mut self, import: &FromImport)
        requires
            old(self).layers_view().len() > 0,
        ensures
            final(self).layers_view() == with_top(old(self).layers_view(),
                from_import_entries(old(self).module_map@, import.from@, import.import@, import.alias@)),
            final(self).module_map == old(self).module_map,
    {
        if str_eq(&import.import, "*") {
            let imported = self.module_map.find_children(&import.from);
            proof {
                assert(entries_view(imported@) =~= Seq::new(imported@.len(), |k: int| (imported@[k].0@, imported@[k].1@)));
            }
            self.add_to_top(imported);
        } else {
            let prefixed = concat(&import.from, ".");
            let ident = concat_strings(&prefixed, &import.import);
            match self.module_map.find_match(&ident) {
                Some(target) => {
                    let extra = vec![(copy_string(&import.alias), target)];
                    proof {
                        assert(entries_view(extra@) =~= seq![(import.alias@, extra@[0].1@)]);
                    }
                    self.add_to_top(extra);
                },
                None => {
                    proof {
                        assert(with_top(self.layers_view(), Seq::empty()) =~= self.layers_view()) by {
                            assert(self.layers_view().last() + Seq::<(Seq<char>, Seq<char>)>::empty() =~= self.layers_view().last());
                        }
                    }
                },
            }
        }
    }

    /// The target of `ident` in the innermost layer that has one.
    pub fn find(&self, ident: &String) -> (r: Option<String>)
        ensures
            match r {
                Some(x) => find_in(self.layers_view(), ident@) == Some(x@),
                None => find_in(self.layers_view(), ident@) is None,
            },
    {
        let mut i: usize = self.layers.len();
        proof {
            assert(self.layers_view().take(i as int) =~= self.layers_view());
        }
        while i > 0
            invariant
                i <= self.layers.len(),
                find_in(self.layers_view(), ident@) == find_in(self.layers_view().take(i as int), ident@),
            decreases i,
        {
            let layer = &self.layers[i - 1];
            let ghost lv = entries_view(layer@);
            proof {
                assert(self.layers_view().take(i as int).drop_last() =~= self.layers_view().take(i - 1));
                assert(self.layers_view().take(i as int).last() == lv);
            }
            let mut j: usize = layer.len();
            proof {
                assert(lv.take(j as int) =~= lv);
            }
            while j > 0
                invariant
                    j <= layer.len(),
                    i > 0,
                    i <= self.layers.len(),
                    lv == entries_view(layer@),
                    find_in(self.layers_view(), ident@) == find_in(self.layers_view().take(i as int), ident@),
                    self.layers_view().take(i as int).last() == lv,
                    self.layers_view().take(i as int).drop_last() == self.layers_view().take(i - 1),
                    lookup(lv, ident@) == lookup(lv.take(j as int), ident@),
                decreases j,
            {
                assert(lv.take(j as int).drop_last() =~= lv.take(j - 1));
                if string_eq(&layer[j - 1].0, ident) {
                    return Some(copy_string(&layer[j - 1].1));
                }
                j -= 1;
            }
            i -= 1;
        }
        None
    }
}

/// `e` with each call of an imported function replaced by a call of its target.
pub open spec fn mod_expr(e: ExprV, layers: Seq<Entries>) -> ExprV
    decreases e,
{
    match e {
        ExprV::CallFunction(name, args) => {
            let a = Seq::new(args.len(), |i: int| if 0 <= i < args.len() { mod_expr(args[i], layers) } else { no_expr() });
            match find_in(layers, name) {
                Some(target) => ExprV::CallFunction(target, a),
                None => ExprV::CallFunction(name, a),
            }
        },
        ExprV::CallMethod(v, name, args) => {
            let v2 = mod_expr(*v, layers);
            let a = Seq::new(args.len(), |i: int| if 0 <= i < args.len() { mod_expr(args[i], layers) } else { no_expr() });
            match v2 {
                ExprV::VariableName(x) => match find_in(layers, x + "."@ + name) {
                    Some(target) => ExprV::CallFunction(target, a),
                    None => ExprV::CallMethod(Box::new(v2), name, a),
                },
                _ => ExprV::CallMethod(Box::new(v2), name, a),
            }
        },
        ExprV::Tuple(t) => ExprV::Tuple(Seq::new(t.len(), |i: int| if 0 <= i < t.len() { mod_expr(t[i], layers) } else { no_expr() })),
        ExprV::BoolOperation(op, c) => ExprV::BoolOperation(op, Seq::new(c.len(), |i: int| if 0 <= i < c.len() { mod_expr(c[i], layers) } else { no_expr() })),
        ExprV::Compare(l, r, op) => ExprV::Compare(Box::new(mod_expr(*l, layers)), Box::new(mod_expr(*r, layers)), op),
        ExprV::UnaryOperation(v, op) => ExprV::UnaryOperation(Box::new(mod_expr(*v, layers)), op),
        ExprV::BinaryOperation(l, r, op) => ExprV::BinaryOperation(Box::new(mod_expr(*l, layers)), Box::new(mod_expr(*r, layers)), op),
        ExprV::Index(v, i) => ExprV::Index(Box::new(mod_expr(*v, layers)), Box::new(mod_expr(*i, layers))),
        ExprV::List(l) => ExprV::List(Seq::new(l.len(), |i: int| if 0 <= i < l.len() { mod_expr(l[i], layers) } else { no_expr() })),
        ExprV::Dict(p) => ExprV::Dict(Seq::new(p.len(), |i: int|
            if 0 <= i < p.len() { (mod_expr(p[i].0, layers), mod_expr(p[i].1, layers)) } else { (no_expr(), no_expr()) })),
        _ => e,
    }
}

/// The statements that `s` becomes, and the layers after it.
pub open spec fn mod_stmt(s: StmtV, layers: Seq<Entries>, map: Entries) -> (Seq<StmtV>, Seq<Entries>)
    decreases s,
{
    match s {
        StmtV::Assign(t, v) => (seq![StmtV::Assign(mod_expr(t, layers), mod_expr(v, layers))], layers),
        StmtV::Expression(e) => (seq![StmtV::Expression(mod_expr(e, layers))], layers),
        StmtV::If(t, b, o) => {
            let (b2, l1) = mod_stmts(b, layers, map);
            let (o2, l2) = mod_stmts(o, l1, map);
            (seq![StmtV::If(mod_expr(t, layers), b2, o2)], l2)
        },
        StmtV::Func(n, a, b) => {
            let (b2, l1) = mod_stmts(b, layers.push(Seq::empty()), map);
            (seq![StmtV::Func(n, a, b2)], l1.drop_last())
        },
        StmtV::Return(r) => (
            seq![StmtV::Return(match r {
                Some(e) => Some(mod_expr(e, layers)),
                None => None,
            })],
            layers,
        ),
        StmtV::While(t, b) => {
            let (b2, l1) = mod_stmts(b, layers, map);
            (seq![StmtV::While(mod_expr(t, layers), b2)], l1)
        },
        StmtV::Import(module, alias) => (seq![], with_top(layers, import_entries(map, module, alias))),
        StmtV::FromImport(from, name, alias) => (seq![], with_top(layers, from_import_entries(map, from, name, alias))),
        _ => (seq![s], layers),
    }
}

pub open spec fn mod_stmts(s: Seq<StmtV>, layers: Seq<Entries>, map: Entries) -> (Seq<StmtV>, Seq<Entries>)
    decreases s,
{
    if s.len() == 0 {
        (seq![], layers)
    } else {
        let (a, l1) = mod_stmts(s.drop_last(), layers, map);
        let (b, l2) = mod_stmt(s.last(), l1, map);
        (a + b, l2)
    }
}

proof fn lemma_mod_keeps_depth(s: StmtV, layers: Seq<Entries>, map: Entries)
    requires
        layers.len() > 0,
    ensures
        mod_stmt(s, layers, map).1.len() == layers.len(),
    decreases s,
{
    match s {
        StmtV::If(_, b, o) => {
            lemma_mod_keeps_depth_all(b, layers, map);
            lemma_mod_keeps_depth_all(o, mod_stmts(b, layers, map).1, map);
        },
        StmtV::Func(_, _, b) => {
            lemma_mod_keeps_depth_all(b, layers.push(Seq::empty()), map);
        },
        StmtV::While(_, b) => {
            lemma_mod_keeps_depth_all(b, layers, map);
        },
        _ => {},
    }
}

proof fn lemma_mod_keeps_depth_all(s: Seq<StmtV>, layers: Seq<Entries>, map: Entries)
    requires
        layers.len() > 0,
    ensures
        mod_stmts(s, layers, map).1.len() == layers.len(),
    decreases s,
{
    if s.len() > 0 {
        lemma_mod_keeps_depth_all(s.drop_last(), layers, map);
        lemma_mod_keeps_depth(s.last(), mod_stmts(s.drop_last(), layers, map).1, map);
    }
}

/// The name of a called method's receiver, when it is a variable.
fn format_value_chain(value: &Expr) -> (r: Option<String>)
    ensures
        match r {
            Some(x) => value@ == ExprV::VariableName(x@),
            None => !(value@ is VariableName),
        },
{
    match value {
        Expr::VariableName(name) => Some(copy_string(name)),
        _ => None,
    }
}

fn mod_exprs(v: &Vec<Expr>, modules: &EnabledModules) -> (r: Vec<Expr>)
    ensures
        r.len() == v.len(),
        forall|i: int| 0 <= i < r.len() ==> (#[trigger] r@[i])@ == mod_expr(v@[i]@, modules.layers_view()),
    decreases v,
{
    let mut r: Vec<Expr> = Vec::new();
    let mut i: usize = 0;
    while i < v.len()
        invariant
            i <= v.len(),
            r.len() == i,
            forall|k: int| 0 <= k < r.len() ==> (#[trigger] r@[k])@ == mod_expr(v@[k]@, modules.layers_view()),
        decreases v.len() - i,
    {
        r.push(mod_resolve_expr(&v[i], modules));
        i += 1;
    }
    r
}

fn mod_pairs(v: &Vec<(Expr, Expr)>, modules: &EnabledModules) -> (r: Vec<(Expr, Expr)>)
    ensures
        r.len() == v.len(),
        forall|i: int| 0 <= i < r.len() ==> (#[trigger] r@[i]).0@ == mod_expr(v@[i].0@, modules.layers_view())
            && r@[i].1@ == mod_expr(v@[i].1@, modules.layers_view()),
    decreases v,
{
    let mut r: Vec<(Expr, Expr)> = Vec::new();
    let mut i: usize = 0;
    while i < v.len()
        invariant
            i <= v.len(),
            r.len() == i,
            forall|k: int| 0 <= k < r.len() ==> (#[trigger] r@[k]).0@ == mod_expr(v@[k].0@, modules.layers_view())
                && r@[k].1@ == mod_expr(v@[k].1@, modules.layers_view()),
        decreases v.len() - i,
    {
        let k = mod_resolve_expr(&v[i].0, modules);
        let x = mod_resolve_expr(&v[i].1, modules);
        r.push((k, x));
        i += 1;
    }
    r
}

/// Replaces the calls of imported functions in `expr`.
fn mod_resolve_expr(expr: &Expr, modules: &EnabledModules) -> (r: Expr)
    ensures
        r@ == mod_expr(expr@, modules.layers_view()),
    decreases expr,
{
    let ghost ev = expr@;
    let ghost rv = mod_expr(ev, modules.layers_view());
    match expr {
        Expr::CallFunction(c) => {
            proof { assert(ev->CallFunction_1 =~= views(c.args@)); }
            let args = mod_exprs(&c.args, modules);
            let name = match modules.find(&c.name) {
                Some(target) => target,
                None => copy_string(&c.name),
            };
            let r = Expr::CallFunction(CallFunction { name, args });
            proof { assert(r@->CallFunction_1 =~= rv->CallFunction_1); }
            r
        },
        Expr::CallMethod(c) => {
            proof { assert(ev->CallMethod_2 =~= views(c.args@)); }
            let value = mod_resolve_expr(&c.value, modules);
            let args = mod_exprs(&c.args, modules);
            let ghost vv = value@;
            match format_value_chain(&value) {
                Some(x) => {
                    let prefixed = concat(&x, ".");
                    let ident = concat_strings(&prefixed, &c.name);
                    proof {
                        assert(ident@ =~= x@ + "."@ + c.name@);
                    }
                    match modules.find(&ident) {
                        Some(target) => {
                            let r = Expr::CallFunction(CallFunction { name: target, args });
                            proof {
                                assert(r@->CallFunction_1 =~= rv->CallFunction_1);
                            }
                            r
                        },
                        None => {
                            let r = Expr::CallMethod(CallMethod { value: Box::new(value), name: copy_string(&c.name), args });
                            proof {
                                assert(r@->CallMethod_2 =~= rv->CallMethod_2);
                            }
                            r
                        },
                    }
                },
                None => {
                    let r = Expr::CallMethod(CallMethod { value: Box::new(value), name: copy_string(&c.name), args });
                    proof {
                        assert(r@->CallMethod_2 =~= rv->CallMethod_2);
                    }
                    r
                },
            }
        },
        Expr::Tuple(t) => {
            proof { assert(ev->Tuple_0 =~= views(t@)); }
            let r = Expr::Tuple(mod_exprs(t, modules));
            proof { assert(r@->Tuple_0 =~= rv->Tuple_0); }
            r
        },
        Expr::BoolOperation(b) => {
            proof { assert(ev->BoolOperation_1 =~= views(b.conditions@)); }
            let r = Expr::BoolOperation(BoolOperation { op: b.op, conditions: mod_exprs(&b.conditions, modules) });
            proof { assert(r@->BoolOperation_1 =~= rv->BoolOperation_1); }
            r
        },
        Expr::Compare(c) => Expr::Compare(Compare {
            left: Box::new(mod_resolve_expr(&c.left, modules)),
            right: Box::new(mod_resolve_expr(&c.right, modules)),
            op: c.op,
        }),
        Expr::UnaryOperation(u) => Expr::UnaryOperation(UnaryOperation {
            value: Box::new(mod_resolve_expr(&u.value, modules)),
            op: u.op,
        }),
        Expr::BinaryOperation(b) => Expr::BinaryOperation(BinaryOperation {
            left: Box::new(mod_resolve_expr(&b.left, modules)),
            right: Box::new(mod_resolve_expr(&b.right, modules)),
            op: b.op,
        }),
        Expr::Index(x) => Expr::Index(Index {
            value: Box::new(mod_resolve_expr(&x.value, modules)),
            index: Box::new(mod_resolve_expr(&x.index, modules)),
        }),
        Expr::List(l) => {
            proof { assert(ev->List_0 =~= views(l@)); }
            let r = Expr::List(mod_exprs(l, modules));
            proof { assert(r@->List_0 =~= rv->List_0); }
            r
        },
        Expr::Dict(d) => {
            proof { assert(ev->Dict_0 =~= Seq::new(d.pairs@.len(), |i: int| (d.pairs@[i].0@, d.pairs@[i].1@))); }
            let r = Expr::Dict(Dict { pairs: mod_pairs(&d.pairs, modules) });
            proof { assert(r@->Dict_0 =~= rv->Dict_0); }
            r
        },
        _ => copy_expr(expr),
    }
}

/// The statements that `s` becomes: none for an import, which takes effect instead.
fn mod_resolve_stmt(s: &Statement, modules: &mut EnabledModules) -> (r: Vec<Statement>)
    requires
        old(modules).layers_view().len() > 0,
    ensures
        (views(r@), final(modules).layers_view()) == mod_stmt(s@, old(modules).layers_view(), old(modules).module_map@),
        final(modules).module_map == old(modules).module_map,
    decreases s,
{
    let ghost sv = s@;
    let ghost l0 = modules.layers_view();
    let ghost map = modules.module_map@;
    match s {
        Statement::Assign(a) => {
            let target = mod_resolve_expr(&a.target, modules);
            let value = mod_resolve_expr(&a.value, modules);
            let r = vec![Statement::Assign(Assign { target, value })];
            proof { assert(views(r@) =~= mod_stmt(sv, l0, map).0); }
            r
        },
        Statement::Expression(e) => {
            let r = vec![Statement::Expression(mod_resolve_expr(e, modules))];
            proof { assert(views(r@) =~= mod_stmt(sv, l0, map).0); }
            r
        },
        Statement::If(x) => {
            proof {
                assert(views(x.body@) =~= sv->If_1);
                assert(views(x.orelse@) =~= sv->If_2);
                lemma_mod_keeps_depth_all(sv->If_1, l0, map);
            }
            let test = mod_resolve_expr(&x.test, modules);
            let body = mod_resolve_statements(&x.body, modules);
            let orelse = mod_resolve_statements(&x.orelse, modules);
            let ghost (bv, ov) = (views(body@), views(orelse@));
            let r = vec![Statement::If(If { test, body, orelse })];
            proof {
                assert(r@[0]@->If_1 =~= bv);
                assert(r@[0]@->If_2 =~= ov);
                assert(views(r@) =~= mod_stmt(sv, l0, map).0);
            }
            r
        },
        Statement::Func(f) => {
            proof {
                assert(views(f.body@) =~= sv->Func_2);
                lemma_mod_keeps_depth_all(sv->Func_2, l0.push(Seq::empty()), map);
            }
            modules.push_layer();
            let body = mod_resolve_statements(&f.body, modules);
            modules.pop_layer();
            let ghost bv = views(body@);
            let r = vec![Statement::Func(Func { name: copy_string(&f.name), args: copy_strings(&f.args), body })];
            proof {
                assert(r@[0]@->Func_2 =~= bv);
                assert(views(r@) =~= mod_stmt(sv, l0, map).0);
            }
            r
        },
        Statement::Return(e) => {
            let x = match e {
                Some(v) => Some(mod_resolve_expr(v, modules)),
                None => None,
            };
            let r = vec![Statement::Return(x)];
            proof { assert(views(r@) =~= mod_stmt(sv, l0, map).0); }
            r
        },
        Statement::While(w) => {
            proof {
                assert(views(w.body@) =~= sv->While_1);
            }
            let test = mod_resolve_expr(&w.test, modules);
            let body = mod_resolve_statements(&w.body, modules);
            let ghost bv = views(body@);
            let r = vec![Statement::While(While { test, body })];
            proof {
                assert(r@[0]@->While_1 =~= bv);
                assert(views(r@) =~= mod_stmt(sv, l0, map).0);
            }
            r
        },
        Statement::Break => {
            let r = vec![Statement::Break];
            proof { assert(views(r@) =~= mod_stmt(sv, l0, map).0); }
            r
        },
        Statement::Continue => {
            let r = vec![Statement::Continue];
            proof { assert(views(r@) =~= mod_stmt(sv, l0, map).0); }
            r
        },
        Statement::Import(i) => {
            modules.declare_import(i);
            let r: Vec<Statement> = Vec::new();
            proof { assert(views(r@) =~= mod_stmt(sv, l0, map).0); }
            r
        },
        Statement::FromImport(i) => {
            modules.declare_from_import(i);
            let r: Vec<Statement> = Vec::new();
            proof { assert(views(r@) =~= mod_stmt(sv, l0, map).0); }
            r
        },
    }
}

fn mod_resolve_statements(stmts: &Vec<Statement>, modules: &mut EnabledModules) -> (r: Vec<Statement>)
    requires
        old(modules).layers_view().len() > 0,
    ensures
        (views(r@), final(modules).layers_view()) == mod_stmts(views(stmts@), old(modules).layers_view(), old(modules).module_map@),
        final(modules).module_map == old(modules).module_map,
    decreases stmts,
{
    let ghost ss = views(stmts@);
    let ghost l0 = modules.layers_view();
    let ghost map = modules.module_map@;
    let ghost mm = modules.module_map;
    let mut out: Vec<Statement> = Vec::new();
    let mut i: usize = 0;
    proof {
        assert(ss.take(0) =~= Seq::<StmtV>::empty());
        assert(views(out@) =~= Seq::<StmtV>::empty());
    }
    while i < stmts.len()
        invariant
            i <= stmts.len(),
            ss == views(stmts@),
            map == modules.module_map@,
            mm == modules.module_map,
            modules.layers_view().len() > 0,
            (views(out@), modules.layers_view()) == mod_stmts(ss.take(i as int), l0, map),
        decreases stmts.len() - i,
    {
        let ghost old_out = views(out@);
        let ghost l1 = modules.layers_view();
        let mut o = mod_resolve_stmt(&stmts[i], modules);
        let ghost ov = views(o@);
        out.append(&mut o);
        proof {
            assert(ss.take(i + 1).drop_last() =~= ss.take(i as int));
            assert(ss.take(i + 1).last() == stmts@[i as int]@);
            assert(views(out@) =~= old_out + ov);
            lemma_mod_keeps_depth(stmts@[i as int]@, l1, map);
        }
        i += 1;
    }
    proof {
        assert(ss.take(i as int) =~= ss);
    }
    out
}

/// Replaces each call of a function of an imported module by a call of its target, and
/// drops the imports.
pub fn resolve_modules(statements: Vec<Statement>, module_map: &ModuleMap) -> (r: Vec<Statement>)
    ensures
        views(r@) == mod_stmts(views(statements@), seq![Seq::<(Seq<char>, Seq<char>)>::empty()], module_map@).0,
{
    let mut modules = EnabledModules::new(module_map);
    modules.push_layer();
    proof {
        assert(modules.layers_view() =~= seq![Seq::<(Seq<char>, Seq<char>)>::empty()]);
    }
    let result = mod_resolve_statements(&statements, &mut modules);
    proof {
        lemma_mod_keeps_depth_all(views(statements@), seq![Seq::<(Seq<char>, Seq<char>)>::empty()], module_map@);
    }
    modules.pop_layer();
    result
}


proof fn lemma_mod_expr_keeps(e: ExprV)
    ensures
        mod_expr(e, Seq::<Entries>::empty()) == e,
    decreases e,
{
    let none = Seq::<Entries>::empty();
    match e {
        ExprV::CallFunction(n, args) => {
            assert forall|i: int| 0 <= i < args.len() implies mod_expr(#[trigger] args[i], none) == args[i] by {
                lemma_mod_expr_keeps(args[i]);
            }
            assert(mod_expr(e, none)->CallFunction_1 =~= args);
        },
        ExprV::CallMethod(v, n, args) => {
            lemma_mod_expr_keeps(*v);
            assert forall|i: int| 0 <= i < args.len() implies mod_expr(#[trigger] args[i], none) == args[i] by {
                lemma_mod_expr_keeps(args[i]);
            }
            assert(mod_expr(e, none)->CallMethod_2 =~= args);
        },
        ExprV::Tuple(v) => {
            assert forall|i: int| 0 <= i < v.len() implies mod_expr(#[trigger] v[i], none) == v[i] by {
                lemma_mod_expr_keeps(v[i]);
            }
            assert(mod_expr(e, none)->Tuple_0 =~= v);
        },
        ExprV::BoolOperation(op, v) => {
            assert forall|i: int| 0 <= i < v.len() implies mod_expr(#[trigger] v[i], none) == v[i] by {
                lemma_mod_expr_keeps(v[i]);
            }
            assert(mod_expr(e, none)->BoolOperation_1 =~= v);
        },
        ExprV::Compare(l, r, _) => {
            lemma_mod_expr_keeps(*l);
            lemma_mod_expr_keeps(*r);
        },
        ExprV::BinaryOperation(l, r, _) => {
            lemma_mod_expr_keeps(*l);
            lemma_mod_expr_keeps(*r);
        },
        ExprV::Index(v, i) => {
            lemma_mod_expr_keeps(*v);
            lemma_mod_expr_keeps(*i);
        },
        ExprV::List(v) => {
            assert forall|i: int| 0 <= i < v.len() implies mod_expr(#[trigger] v[i], none) == v[i] by {
                lemma_mod_expr_keeps(v[i]);
            }
            assert(mod_expr(e, none)->List_0 =~= v);
        },
        ExprV::UnaryOperation(v, _) => {
            lemma_mod_expr_keeps(*v);
        },
        ExprV::Dict(v) => {
            assert forall|i: int| 0 <= i < v.len() implies mod_expr(#[trigger] v[i].0, none) == v[i].0
                && mod_expr(v[i].1, none) == v[i].1 by {
                lemma_mod_expr_keeps(v[i].0);
                lemma_mod_expr_keeps(v[i].1);
            }
            assert(mod_expr(e, none)->Dict_0 =~= v);
        },
        _ => {},
    }
}

/// With no module imported, resolving module names changes no expression: every operand
/// and argument stays in its place.
pub proof fn law_modules_keep_the_rest(e: ExprV)
    ensures
        mod_expr(e, Seq::<Entries>::empty()) == e,
{
    lemma_mod_expr_keeps(e);
}

/// A statement that is neither an import nor a function definition.
pub open spec fn plain_statement() -> spec_fn(StmtV) -> bool {
    |s: StmtV| !(s is Import || s is FromImport || s is Func)
}

proof fn lemma_mod_stmt_keeps(s: StmtV, map: Entries)
    requires
        crate::ast::every_stmt(s, plain_statement()),
    ensures
        mod_stmt(s, Seq::<Entries>::empty(), map) == (seq![s], Seq::<Entries>::empty()),
    decreases s,
{
    match s {
        StmtV::Assign(t, v) => {
            lemma_mod_expr_keeps(t);
            lemma_mod_expr_keeps(v);
        },
        StmtV::Expression(e) => {
            lemma_mod_expr_keeps(e);
        },
        StmtV::If(t, b, o) => {
            lemma_mod_expr_keeps(t);
            lemma_mod_stmts_keeps(b, map);
            lemma_mod_stmts_keeps(o, map);
        },
        StmtV::Return(r) => {
            if let Some(e) = r {
                lemma_mod_expr_keeps(e);
            }
        },
        StmtV::While(t, b) => {
            lemma_mod_expr_keeps(t);
            lemma_mod_stmts_keeps(b, map);
        },
        _ => {},
    }
}

proof fn lemma_mod_stmts_keeps(v: Seq<StmtV>, map: Entries)
    requires
        forall|i: int| 0 <= i < v.len() ==> crate::ast::every_stmt(#[trigger] v[i], plain_statement()),
    ensures
        mod_stmts(v, Seq::<Entries>::empty(), map) == (v, Seq::<Entries>::empty()),
    decreases v,
{
    if v.len() > 0 {
        let d = v.drop_last();
        assert forall|i: int| 0 <= i < d.len() implies crate::ast::every_stmt(#[trigger] d[i], plain_statement()) by {
            assert(d[i] == v[i]);
        }
        lemma_mod_stmts_keeps(d, map);
        assert(crate::ast::every_stmt(v[v.len() - 1], plain_statement()));
        lemma_mod_stmt_keeps(v.last(), map);
        assert(d + seq![v.last()] =~= v);
    }
}

/// With no module imported, resolving module names keeps a program without imports and
/// function definitions as it is (an `if` keeps its test, body and `else` branch).
pub proof fn law_modules_keep_programs(s: Seq<StmtV>, map: Entries)
    requires
        forall|i: int| 0 <= i < s.len() ==> crate::ast::every_stmt(#[trigger] s[i], plain_statement()),
    ensures
        mod_stmts(s, Seq::<Entries>::empty(), map) == (s, Seq::<Entries>::empty()),
{
    lemma_mod_stmts_keeps(s, map);
}

} // verus!
