//! The linker arguments that define the stack symbols.

use vstd::prelude::*;
use vstd::string::*;
use crate::decimal::{decimal, render_decimal};
use crate::placement::PlacementResult;

verus! {

/// The argument that gives the symbol `name` the value `value`.
pub open spec fn defsym(name: Seq<char>, value: nat) -> Seq<char> {
    "--defsym="@ + name + "="@ + decimal(value)
}

/// The arguments that define the symbols of `placed`: `_stack_start`, and
/// before it `_sbss` where the stack shares its boundary with the data.
pub open spec fn directives(placed: PlacementResult) -> Seq<Seq<char>> {
    match placed {
        PlacementResult::StackStart(v) => seq![defsym("_stack_start"@, v as nat)],
        PlacementResult::SharedStart(v) => seq![
            defsym("_sbss"@, v as nat),
            defsym("_stack_start"@, v as nat),
        ],
    }
}

/// Writes the argument that gives the symbol `name` the value `value`.
pub fn render_defsym(name: &str, value: u64) -> (r: String)
    ensures
        r@ == defsym(name@, value as nat),
{
    let mut r: String = String::from_str("--defsym=");
    r.append(name);
    r.append("=");
    let number: String = render_decimal(value);
    r.append(number.as_str());
    r
}

impl PlacementResult {
    /// The arguments to add to the second link.
    pub fn directives(&self) -> (r: Vec<String>)
        ensures
            r.deep_view() == directives(*self),
    {
        let mut r: Vec<String> = Vec::new();
        match self {
            PlacementResult::StackStart(v) => {
                r.push(render_defsym("_stack_start", *v));
            },
            PlacementResult::SharedStart(v) => {
                r.push(render_defsym("_sbss", *v));
                r.push(render_defsym("_stack_start", *v));
            },
        }
        assert(r.deep_view() =~= directives(*self));
        r
    }
}

} // verus!
