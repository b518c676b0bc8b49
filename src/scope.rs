use vstd::prelude::*;
use vstd::string::*;

use crate::errors::{runtime_failure, unknown_loc, MakerError, MakerErrorType};
use crate::lexer::Location;
use crate::values::{entries, find_entry, lemma_lookup_none, lookup, names_unique, RuntimeValue, Val};

verus! {

/// The flat set of variables of one script execution. A binding, once declared,
/// never changes.
pub struct Scope {
    pub variables: Vec<(String, RuntimeValue)>,
}

/// The message of reading an undeclared variable.
pub open spec fn missing_message(name: Seq<char>) -> Seq<char> {
    "The variable "@ + name + " does not exist"@
}

/// The message of declaring a variable twice.
pub open spec fn taken_message(name: Seq<char>) -> Seq<char> {
    "The variable "@ + name + " already exists"@
}

impl Scope {
    /// The bindings, in order of declaration.
    pub open spec fn bindings(&self) -> Seq<(Seq<char>, Val)> {
        entries(self.variables@)
    }

    /// Whether every name is bound at most once.
    pub open spec fn wf(&self) -> bool {
        names_unique(self.bindings())
    }

    /// An empty scope.
    pub fn new() -> (r: Scope)
        ensures
            r.bindings() == Seq::<(Seq<char>, Val)>::empty(),
            r.wf(),
    {
        let r = Scope { variables: Vec::new() };
        assert(r.bindings() =~= Seq::<(Seq<char>, Val)>::empty());
        r
    }

    /// The value bound to `name`, or a runtime error naming it.
    pub fn get(&self, name: &String) -> (r: Result<RuntimeValue, MakerError>)
        ensures
            match (r, lookup(self.bindings(), name@)) {
                (Ok(v), Some(m)) => v.model() == m,
                (Err(e), None) => e.failure() == runtime_failure(missing_message(name@), unknown_loc()),
                _ => false,
            },
    {
        match find_entry(&self.variables, name) {
            Some(v) => Ok(v.duplicate()),
            None => {
                proof {
                    reveal_strlit("The variable ");
                    reveal_strlit(" does not exist");
                }
                let message = "The variable ".to_owned().concat(name.as_str()).concat(" does not exist");
                Err(MakerError::lang(message, Location::no_location(), MakerErrorType::RuntimeError))
            },
        }
    }

    /// Binds `name` to `value` and hands the value back; fails, changing nothing, if
    /// `name` is bound already.
    pub fn declare(&mut self, name: &String, value: RuntimeValue) -> (r: Result<RuntimeValue, MakerError>)
        requires
            old(self).wf(),
        ensures
            final(self).wf(),
            match lookup(old(self).bindings(), name@) {
                Some(_) => {
                    &&& final(self).bindings() == old(self).bindings()
                    &&& r matches Err(e) && e.failure() == runtime_failure(taken_message(name@), unknown_loc())
                },
                None => {
                    &&& final(self).bindings() == old(self).bindings().push((name@, value.model()))
                    &&& r matches Ok(v) && v.model() == value.model()
                },
            },
    {
        if find_entry(&self.variables, name).is_some() {
            proof {
                reveal_strlit("The variable ");
                reveal_strlit(" already exists");
            }
            let message = "The variable ".to_owned().concat(name.as_str()).concat(" already exists");
            return Err(MakerError::lang(message, Location::no_location(), MakerErrorType::RuntimeError));
        }
        let ghost before = self.bindings();
        proof {
            lemma_lookup_none(before, name@);
        }
        let copy = value.duplicate();
        self.variables.push((name.clone(), value));
        assert(self.bindings() =~= before.push((name@, copy.model())));
        Ok(copy)
    }
}

} // verus!
