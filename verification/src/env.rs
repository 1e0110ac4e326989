use vstd::prelude::*;

use crate::text::str_eq;

verus! {

/// A snapshot of the process environment: name and value of each variable
/// whose name and value are valid Unicode, in the order the process lists them.
pub struct Env {
    pub vars: Vec<(String, String)>,
}

/// The value of the first variable named `name`.
pub open spec fn env_lookup(vars: Seq<(String, String)>, name: Seq<char>) -> Option<Seq<char>>
    decreases vars.len(),
{
    if vars.len() == 0 {
        None
    } else if vars[0].0@ == name {
        Some(vars[0].1@)
    } else {
        env_lookup(vars.drop_first(), name)
    }
}

pub open spec fn opt_view(o: Option<String>) -> Option<Seq<char>> {
    match o {
        Some(s) => Some(s@),
        None => None,
    }
}

impl Env {
    pub open spec fn lookup(&self, name: Seq<char>) -> Option<Seq<char>> {
        env_lookup(self.vars@, name)
    }

    /// An environment with no variables.
    pub fn empty() -> (r: Env)
        ensures
            r.vars@.len() == 0,
    {
        Env { vars: Vec::new() }
    }

    /// The value of `name`, as `std::env::var` would give it.
    pub fn get(&self, name: &str) -> (r: Option<String>)
        ensures
            opt_view(r) == self.lookup(name@),
    {
        let mut i: usize = 0;
        proof {
            assert(self.vars@.skip(0) == self.vars@);
        }
        while i < self.vars.len()
            invariant
                i <= self.vars.len(),
                self.lookup(name@) == env_lookup(self.vars@.skip(i as int), name@),
            decreases self.vars.len() - i,
        {
            proof {
                let t = self.vars@.skip(i as int);
                assert(t.drop_first() == self.vars@.skip(i + 1));
                assert(t[0] == self.vars@[i as int]);
            }
            if str_eq(self.vars[i].0.as_str(), name) {
                return Some(self.vars[i].1.clone());
            }
            i = i + 1;
        }
        proof {
            assert(self.vars@.skip(i as int).len() == 0);
        }
        None
    }
}

} // verus!
