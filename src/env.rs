use vstd::prelude::*;
use crate::ast::{copy_names, copy_stmt, names_view, stmt_view, Stmt};
use crate::semantics::{lookup, missing_binding, missing_function, scope_lookup, store, Entry, Scopes};
use crate::val::Val;

verus! {

broadcast use vstd::std_specs::vec::group_vec_axioms;

/// What a name is bound to in a scope.
#[derive(Debug, PartialEq)]
pub enum NamedInfo {
    Binding(Val),
    Func { params: Vec<String>, body: Stmt },
}

pub open spec fn info_view(i: NamedInfo) -> Entry {
    match i {
        NamedInfo::Binding(v) => Entry::Binding(v),
        NamedInfo::Func { params, body } => Entry::Func(names_view(params@), stmt_view(body)),
    }
}

pub open spec fn scope_view(sc: Seq<(String, NamedInfo)>) -> Seq<(Seq<char>, Entry)> {
    sc.map_values(|p: (String, NamedInfo)| (p.0@, info_view(p.1)))
}

/// A chain of scopes: the root first, the innermost last. Definitions go to
/// the innermost scope; lookups walk from the innermost scope outward.
#[derive(Debug, PartialEq)]
pub struct Env {
    scopes: Vec<Vec<(String, NamedInfo)>>,
}

impl View for Env {
    type V = Scopes;

    closed spec fn view(&self) -> Scopes {
        self.scopes@.map_values(|sc: Vec<(String, NamedInfo)>| scope_view(sc@))
    }
}

impl Default for Env {
    /// An environment of one empty scope.
    fn default() -> (r: Env)
        ensures
            r@ == seq![Seq::<(Seq<char>, Entry)>::empty()],
    {
        let mut scopes: Vec<Vec<(String, NamedInfo)>> = Vec::new();
        scopes.push(Vec::new());
        let r = Env { scopes };
        assert(scope_view(r.scopes@[0]@) =~= Seq::empty());
        assert(r@ =~= seq![Seq::<(Seq<char>, Entry)>::empty()]);
        r
    }
}

impl Env {
    /// Every environment has a root scope.
    pub open spec fn wf(&self) -> bool {
        self@.len() >= 1
    }

    /// The environment with an empty scope added inside it.
    pub fn create_child(self) -> (r: Env)
        ensures
            r@ == self@.push(Seq::empty()),
    {
        let mut scopes = self.scopes;
        scopes.push(Vec::new());
        let r = Env { scopes };
        assert(scope_view(r.scopes@.last()@) =~= Seq::empty());
        assert(r@ =~= self@.push(Seq::empty()));
        r
    }

    /// A copy of the root scope alone.
    pub fn root(&self) -> (r: Env)
        requires
            self.wf(),
        ensures
            r@ == seq![self@[0]],
    {
        let src = &self.scopes[0];
        let mut sc: Vec<(String, NamedInfo)> = Vec::new();
        let mut i: usize = 0;
        while i < src.len()
            invariant
                src@ == self.scopes@[0]@,
                i <= src@.len(),
                sc@.len() == i,
                forall|j: int| 0 <= j < i ==> (#[trigger] sc@[j]).0@ == src@[j].0@ && info_view(
                    sc@[j].1,
                ) == info_view(src@[j].1),
            decreases src@.len() - i,
        {
            let info = match &src[i].1 {
                NamedInfo::Binding(v) => NamedInfo::Binding(*v),
                NamedInfo::Func { params, body } => NamedInfo::Func {
                    params: copy_names(params),
                    body: copy_stmt(body),
                },
            };
            sc.push((src[i].0.clone(), info));
            i = i + 1;
        }
        let r = Env { scopes: vec![sc] };
        assert(scope_view(sc@) =~= scope_view(src@));
        assert(r@ =~= seq![self@[0]]);
        r
    }

    fn store(&mut self, name: String, info: NamedInfo)
        requires
            old(self).wf(),
        ensures
            final(self)@ == store(old(self)@, name@, info_view(info)),
    {
        let ghost e = info_view(info);
        let ghost n = name@;
        let ghost before = self.scopes@;
        match self.scopes.pop() {
            Some(mut sc) => {
                proof {
                    assert(scope_view(sc@.push((name, info))) =~= scope_view(sc@).push((n, e)));
                }
                sc.push((name, info));
                self.scopes.push(sc);
                assert(self@ =~= store(old(self)@, n, e));
            },
            None => {},
        }
    }

    /// Binds `name` to a value in the innermost scope.
    pub fn store_binding(&mut self, name: String, val: Val)
        requires
            old(self).wf(),
        ensures
            final(self)@ == store(old(self)@, name@, Entry::Binding(val)),
    {
        self.store(name, NamedInfo::Binding(val));
    }

    /// Binds `name` to a function in the innermost scope.
    pub fn store_func(&mut self, name: String, params: Vec<String>, body: Stmt)
        requires
            old(self).wf(),
        ensures
            final(self)@ == store(
                old(self)@,
                name@,
                Entry::Func(names_view(params@), stmt_view(body)),
            ),
    {
        self.store(name, NamedInfo::Func { params, body });
    }

    /// The entry that `name` resolves to, if any.
    pub fn get_named_info(&self, name: &String) -> (r: Option<&NamedInfo>)
        ensures
            match r {
                None => lookup(self@, name@) is None,
                Some(i) => lookup(self@, name@) == Some(info_view(*i)),
            },
    {
        let mut i = self.scopes.len();
        assert(self@.subrange(0, i as int) =~= self@);
        while i > 0
            invariant
                i <= self@.len(),
                self@.len() == self.scopes@.len(),
                lookup(self@, name@) == lookup(self@.subrange(0, i as int), name@),
            decreases i,
        {
            let sc = &self.scopes[i - 1];
            let ghost sv = self@[i - 1];
            let mut j = sc.len();
            assert(sv == scope_view(sc@));
            assert(sv.subrange(0, j as int) =~= sv);
            while j > 0
                invariant
                    j <= sc@.len(),
                    0 < i <= self@.len(),
                    self@.len() == self.scopes@.len(),
                    sv == self@[i - 1],
                    lookup(self@, name@) == lookup(self@.subrange(0, i as int), name@),
                    sv == scope_view(sc@),
                    scope_lookup(sv, name@) == scope_lookup(sv.subrange(0, j as int), name@),
                decreases j,
            {
                assert(sv.subrange(0, j as int).drop_last() =~= sv.subrange(0, j - 1));
                if sc[j - 1].0 == *name {
                    assert(self@.subrange(0, i as int).drop_last() =~= self@.subrange(0, i - 1));
                    return Some(&sc[j - 1].1);
                }
                j = j - 1;
            }
            assert(self@.subrange(0, i as int).drop_last() =~= self@.subrange(0, i - 1));
            i = i - 1;
        }
        None
    }

    /// The value bound to `name`; fails where it resolves to a function or
    /// to nothing.
    pub fn get_binding(&self, name: &String) -> (r: Result<Val, String>)
        ensures
            match lookup(self@, name@) {
                Some(Entry::Binding(v)) => r == Ok::<Val, String>(v),
                _ => r is Err && r->Err_0@ == missing_binding(name@),
            },
    {
        match self.get_named_info(name) {
            Some(NamedInfo::Binding(v)) => Ok(*v),
            _ => Err(message("binding with name '", name, "' does not exist")),
        }
    }

    /// The parameters and body of the function bound to `name`; fails where
    /// it resolves to a binding or to nothing.
    pub fn get_func(&self, name: &String) -> (r: Result<(&Vec<String>, &Stmt), String>)
        ensures
            match lookup(self@, name@) {
                Some(Entry::Func(params, body)) => r is Ok && names_view(r->Ok_0.0@) == params
                    && stmt_view(*r->Ok_0.1) == body,
                _ => r is Err && r->Err_0@ == missing_function(name@),
            },
    {
        match self.get_named_info(name) {
            Some(NamedInfo::Func { params, body }) => Ok((params, body)),
            _ => Err(message("function with name '", name, "' does not exist")),
        }
    }
}

/// `before`, then `name`, then `after`.
pub fn message(before: &str, name: &String, after: &str) -> (m: String)
    ensures
        m@ == before@ + name@ + after@,
{
    let mut m = String::from_str(before);
    m.append(name.as_str());
    m.append(after);
    m
}

} // verus!
