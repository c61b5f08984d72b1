use crate::text::{split_at_char, split_on};
use vstd::prelude::*;

verus! {

/// The one action an invocation performs.
pub enum Action {
    /// Print the route lines of the config file.
    List,
    /// Resolve the domains and route their addresses.
    Add(Vec<String>),
    /// Resolve the domains and drop their route lines.
    Remove(Vec<String>),
    /// None of the three inputs was given: do nothing after parsing.
    Idle,
}

/// Splits a comma-separated domain list, trimming nothing and dropping
/// nothing: surrounding whitespace stays, duplicates stay, empty entries
/// stay.
pub fn split_domains(s: &str) -> (r: Vec<String>)
    ensures
        r.deep_view() == split_on(s@, ','),
{
    split_at_char(s, ',')
}

/// Chooses the action from the inputs, in fixed priority order: the list
/// flag wins, then the add domains, then the remove domains; with none of
/// the three the invocation does nothing.
pub fn choose_action(list: bool, add: Option<&str>, remove: Option<&str>) -> (r: Action)
    ensures
        list ==> r matches Action::List,
        !list && add is Some ==> (r matches Action::Add(d) && d.deep_view() == split_on(
            (add->Some_0)@,
            ',',
        )),
        !list && add is None && remove is Some ==> (r matches Action::Remove(d) && d.deep_view()
            == split_on((remove->Some_0)@, ',')),
        !list && add is None && remove is None ==> r matches Action::Idle,
{
    if list {
        Action::List
    } else if let Some(a) = add {
        Action::Add(split_domains(a))
    } else if let Some(m) = remove {
        Action::Remove(split_domains(m))
    } else {
        Action::Idle
    }
}

} // verus!
