use vstd::hash_map::StringHashMap;
use vstd::prelude::*;

verus! {

broadcast use vstd::hash_map::group_hash_map_axioms;

/// A table of symbols with nested scopes. Each scope has a map of its own,
/// from names to what they stand for, and only the innermost scope is read
/// and written.
#[verifier::reject_recursive_types(T)]
pub struct SymTable<T> {
    /// Index of the innermost scope.
    pub scope: usize,
    /// One map for each open scope, outermost first.
    pub symbols: Vec<StringHashMap<T>>,
}

impl<T> SymTable<T> {
    /// The open scopes as mathematical maps, outermost first.
    pub open spec fn scopes(&self) -> Seq<Map<Seq<char>, T>> {
        Seq::new(self.symbols.len() as nat, |i: int| self.symbols[i]@)
    }

    /// Whether the innermost scope has a map.
    pub open spec fn in_range(&self) -> bool {
        self.scope < self.symbols.len()
    }

    /// Whether the innermost scope is the last of the open scopes.
    pub open spec fn wf(&self) -> bool {
        self.scope + 1 == self.symbols.len()
    }

    /// What the names of the innermost scope stand for.
    pub open spec fn innermost(&self) -> Map<Seq<char>, T>
        recommends
            self.in_range(),
    {
        self.scopes()[self.scope as int]
    }

    /// A table with one open scope that holds nothing.
    pub fn new() -> (r: Self)
        ensures
            r.wf(),
            r.scope == 0,
            r.scopes() == seq![Map::<Seq<char>, T>::empty()],
    {
        let mut symbols: Vec<StringHashMap<T>> = Vec::new();
        symbols.push(StringHashMap::new());
        let r = SymTable { scope: 0, symbols };
        assert(r.scopes() =~= seq![Map::<Seq<char>, T>::empty()]);
        r
    }

    /// Binds a name in the innermost scope, in place of what it was bound
    /// to there.
    pub fn add(&mut self, key: String, item: T)
        requires
            old(self).in_range(),
        ensures
            final(self).scope == old(self).scope,
            final(self).wf() == old(self).wf(),
            final(self).scopes() == old(self).scopes().update(
                old(self).scope as int,
                old(self).innermost().insert(key@, item),
            ),
    {
        let scope = self.scope;
        self.symbols[scope].insert(key, item);
        assert(self.scopes() =~= old(self).scopes().update(
            old(self).scope as int,
            old(self).innermost().insert(key@, item),
        ));
    }

    /// What a name is bound to in the innermost scope. Outer scopes are not
    /// consulted.
    pub fn get(&self, key: String) -> (r: Option<&T>)
        requires
            self.in_range(),
        ensures
            r == (if self.innermost().contains_key(key@) {
                Some(&self.innermost()[key@])
            } else {
                None
            }),
    {
        self.symbols[self.scope].get(key.as_str())
    }

    /// Opens a scope that holds nothing and makes it the innermost.
    pub fn new_scope(&mut self)
        requires
            old(self).scope < usize::MAX,
        ensures
            final(self).scope == old(self).scope + 1,
            old(self).wf() ==> final(self).wf(),
            final(self).scopes() == old(self).scopes().push(Map::<Seq<char>, T>::empty()),
    {
        self.scope += 1;
        self.symbols.push(StringHashMap::new());
        assert(self.scopes() =~= old(self).scopes().push(Map::<Seq<char>, T>::empty()));
    }

    /// Closes the innermost scope, with everything bound in it.
    pub fn leave_scope(&mut self)
        requires
            old(self).scope > 0,
        ensures
            final(self).scope == old(self).scope - 1,
            old(self).wf() ==> final(self).wf(),
            final(self).scopes() == (if old(self).scopes().len() > 0 {
                old(self).scopes().drop_last()
            } else {
                old(self).scopes()
            }),
    {
        self.scope -= 1;
        self.symbols.pop();
        assert(old(self).scopes().len() > 0 ==> self.scopes() =~= old(self).scopes().drop_last());
        assert(old(self).scopes().len() == 0 ==> self.scopes() =~= old(self).scopes());
    }
}

} // verus!
