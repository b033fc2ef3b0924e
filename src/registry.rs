use vstd::prelude::*;

verus! {

/// The module part of a method name: what comes before its first `.`, or
/// the whole name when it has none.
pub open spec fn module_prefix(m: Seq<char>) -> Seq<char>
    decreases m.len(),
{
    if m.len() == 0 || m[0] == '.' {
        seq![]
    } else {
        seq![m[0]] + module_prefix(m.drop_first())
    }
}

/// The module part of `method`.
pub fn module_name(method: &str) -> (r: Vec<char>)
    ensures
        r@ == module_prefix(method@),
{
    let n = method.unicode_len();
    let mut out: Vec<char> = Vec::new();
    let mut i: usize = 0;
    assert(method@.subrange(0, n as int) =~= method@);
    assert(out@ + module_prefix(method@) =~= module_prefix(method@));
    while i < n
        invariant
            n == method@.len(),
            i <= n,
            module_prefix(method@) == out@ + module_prefix(method@.subrange(i as int, n as int)),
        decreases n - i,
    {
        let c = method.get_char(i);
        let ghost rest = method@.subrange(i as int, n as int);
        if c == '.' {
            assert(module_prefix(rest) == Seq::<char>::empty());
            assert(out@ + Seq::<char>::empty() =~= out@);
            return out;
        }
        proof {
            assert(rest.drop_first() =~= method@.subrange(i + 1, n as int));
            assert(module_prefix(rest) == seq![c] + module_prefix(rest.drop_first()));
            assert(out@.push(c) + module_prefix(rest.drop_first()) =~= out@ + (seq![c] + module_prefix(rest.drop_first())));
        }
        out.push(c);
        i = i + 1;
    }
    proof {
        assert(method@.subrange(n as int, n as int) =~= Seq::<char>::empty());
        assert(out@ + Seq::<char>::empty() =~= out@);
    }
    out
}

/// Where a call goes: to a registered module, or to the fallback.
#[derive(Clone, Copy, Debug, PartialEq, Eq, Structural)]
pub enum Route {
    Module(usize),
    Fallback,
}

/// Modules keyed by the prefix of the methods they serve; a method whose
/// prefix no module claims goes to the fallback.
pub struct Registry {
    names: Vec<String>,
}

impl Registry {
    pub closed spec fn modules(&self) -> Seq<Seq<char>> {
        self.names@.map_values(|s: String| s@)
    }

    pub fn new() -> (r: Registry)
        ensures
            r.modules() == Seq::<Seq<char>>::empty(),
    {
        Registry { names: Vec::new() }
    }

    /// Registers a module under `name`; its index is the number of modules before it.
    pub fn add(&mut self, name: String) -> (r: usize)
        ensures
            r == old(self).modules().len(),
            final(self).modules() == old(self).modules().push(name@),
    {
        let r = self.names.len();
        self.names.push(name);
        assert(self.modules() =~= old(self).modules().push(name@));
        r
    }

    /// Routes `method` to the first module registered under its prefix, or
    /// to the fallback.
    pub fn route(&self, method: &str) -> (r: Route)
        ensures
            r is Fallback <==> forall|j: int| 0 <= j < self.modules().len() ==> self.modules()[j]
                != module_prefix(method@),
            r matches Route::Module(i) ==> (i < self.modules().len() && self.modules()[i as int]
                == module_prefix(method@) && forall|j: int| 0 <= j < i ==> self.modules()[j]
                != module_prefix(method@)),
    {
        let prefix = module_name(method);
        let mut i: usize = 0;
        while i < self.names.len()
            invariant
                prefix@ == module_prefix(method@),
                i <= self.names.len(),
                forall|j: int| 0 <= j < i ==> self.modules()[j] != module_prefix(method@),
            decreases self.names.len() - i,
        {
            if chars_match(self.names[i].as_str(), &prefix) {
                assert(self.modules()[i as int] == module_prefix(method@));
                return Route::Module(i);
            }
            i = i + 1;
        }
        Route::Fallback
    }
}

/// Whether `s` consists of exactly the characters `cs`.
fn chars_match(s: &str, cs: &Vec<char>) -> (r: bool)
    ensures
        r == (s@ == cs@),
{
    let n = s.unicode_len();
    if n != cs.len() {
        return false;
    }
    let mut j: usize = 0;
    while j < n
        invariant
            n == s@.len(),
            n == cs.len(),
            j <= n,
            forall|k: int| 0 <= k < j ==> s@[k] == cs@[k],
        decreases n - j,
    {
        if s.get_char(j) != cs[j] {
            return false;
        }
        j = j + 1;
    }
    assert(s@ =~= cs@);
    true
}

} // verus!
