//! The environment capability: the bindings a host seeds, and the lookup a
//! guest sees.

use vstd::prelude::*;
use vstd::string::StrSliceExecFns;

verus! {

/// Environment bindings in the order they were seeded.
pub struct Env {
    vars: Vec<(String, String)>,
}

/// The value of the first binding of `key` among the first `n`, if any.
pub open spec fn lookup_in(vars: Seq<(Seq<char>, Seq<char>)>, key: Seq<char>, n: nat) -> Option<
    Seq<char>,
>
    decreases n,
{
    if n == 0 || n > vars.len() {
        None
    } else {
        match lookup_in(vars, key, (n - 1) as nat) {
            Some(value) => Some(value),
            None => if vars[n - 1].0 == key {
                Some(vars[n - 1].1)
            } else {
                None
            },
        }
    }
}

/// The value that `key` is bound to: that of its first binding.
pub open spec fn lookup(vars: Seq<(Seq<char>, Seq<char>)>, key: Seq<char>) -> Option<Seq<char>> {
    lookup_in(vars, key, vars.len())
}

/// A name that a variable can be asked for under: not empty, and with no
/// `=` and no NUL in it.
pub open spec fn valid_name(name: Seq<char>) -> bool {
    &&& name.len() > 0
    &&& forall|i: int| 0 <= i < name.len() ==> (#[trigger] name[i]) != '=' && name[i] != '\0'
}

/// What a guest that asks for the variable `name` is given: the value that
/// the name is bound to, and nothing under a name that no variable can
/// have, whatever was seeded under it.
pub open spec fn var_of(vars: Seq<(Seq<char>, Seq<char>)>, name: Seq<char>) -> Option<Seq<char>> {
    if valid_name(name) {
        lookup(vars, name)
    } else {
        None
    }
}

/// Whether a variable can be asked for under `name`.
pub fn is_valid_name(name: &str) -> (ok: bool)
    ensures
        ok == valid_name(name@),
{
    let n: usize = name.unicode_len();
    let mut i: usize = 0;
    while i < n
        invariant
            n == name@.len(),
            i <= n,
            forall|k: int| 0 <= k < i ==> (#[trigger] name@[k]) != '=' && name@[k] != '\0',
        decreases n - i,
    {
        let c = name.get_char(i);
        if c == '=' || c == '\0' {
            return false;
        }
        i = i + 1;
    }
    n > 0
}

/// A binding found among the first `i` is the one found among any more.
pub proof fn lemma_lookup_found(vars: Seq<(Seq<char>, Seq<char>)>, key: Seq<char>, i: nat, n: nat)
    requires
        i <= n <= vars.len(),
        lookup_in(vars, key, i) is Some,
    ensures
        lookup_in(vars, key, n) == lookup_in(vars, key, i),
    decreases n,
{
    if i < n {
        lemma_lookup_found(vars, key, i, (n - 1) as nat);
    }
}

impl View for Env {
    type V = Seq<(Seq<char>, Seq<char>)>;

    closed spec fn view(&self) -> Seq<(Seq<char>, Seq<char>)> {
        Seq::new(self.vars@.len(), |i: int| (self.vars@[i].0@, self.vars@[i].1@))
    }
}

impl Env {
    /// No bindings.
    pub fn new() -> (env: Env)
        ensures
            env@ == Seq::<(Seq<char>, Seq<char>)>::empty(),
    {
        let env = Env { vars: Vec::new() };
        assert(env@ =~= Seq::<(Seq<char>, Seq<char>)>::empty());
        env
    }

    /// Adds a binding behind the ones already there.
    pub fn push_env(&mut self, key: &str, value: &str)
        ensures
            final(self)@ == old(self)@.push((key@, value@)),
    {
        self.vars.push((key.to_owned(), value.to_owned()));
        assert(self@ =~= old(self)@.push((key@, value@)));
    }

    /// How many bindings there are.
    pub fn len(&self) -> (n: usize)
        ensures
            n == self@.len(),
    {
        self.vars.len()
    }

    /// The value bound to `key`, if any.
    pub fn get(&self, key: &str) -> (value: Option<String>)
        ensures
            match lookup(self@, key@) {
                Some(v) => value is Some && value->Some_0@ == v,
                None => value is None,
            },
    {
        let wanted = key.to_owned();
        let mut i: usize = 0;
        while i < self.vars.len()
            invariant
                i <= self.vars@.len(),
                wanted@ == key@,
                lookup_in(self@, key@, i as nat) is None,
            decreases self.vars@.len() - i,
        {
            if self.vars[i].0 == wanted {
                proof {
                    lemma_lookup_found(self@, key@, (i + 1) as nat, self@.len());
                }
                return Some(self.vars[i].1.clone());
            }
            i = i + 1;
        }
        None
    }
}

impl Env {
    /// The value that a guest is given for the variable `name`.
    pub fn var(&self, name: &str) -> (value: Option<String>)
        ensures
            match var_of(self@, name@) {
                Some(v) => value is Some && value->Some_0@ == v,
                None => value is None,
            },
    {
        if is_valid_name(name) {
            self.get(name)
        } else {
            None
        }
    }

    /// The bindings in the order they were seeded, each as key and value.
    pub fn bindings(&self) -> (pairs: Vec<(String, String)>)
        ensures
            pairs@.len() == self@.len(),
            forall|i: int|
                0 <= i < pairs@.len() ==> (#[trigger] pairs@[i]).0@ == self@[i].0 && pairs@[i].1@
                    == self@[i].1,
    {
        let mut pairs: Vec<(String, String)> = Vec::new();
        let mut i: usize = 0;
        while i < self.vars.len()
            invariant
                i <= self.vars@.len(),
                pairs@.len() == i,
                forall|k: int|
                    0 <= k < i ==> (#[trigger] pairs@[k]).0@ == self@[k].0 && pairs@[k].1@
                        == self@[k].1,
            decreases self.vars@.len() - i,
        {
            pairs.push((self.vars[i].0.clone(), self.vars[i].1.clone()));
            i = i + 1;
        }
        pairs
    }
}

/// The environment that the demo seeds its guest with: the good dog and
/// the pouty dog.
pub fn demo_env() -> (env: Env)
    ensures
        env@ == seq![("GOOD_DOG"@, "gussie"@), ("POUTY_DOG"@, "willa"@)],
{
    let mut env = Env::new();
    env.push_env("GOOD_DOG", "gussie");
    env.push_env("POUTY_DOG", "willa");
    assert(env@ =~= seq![("GOOD_DOG"@, "gussie"@), ("POUTY_DOG"@, "willa"@)]);
    env
}

} // verus!
