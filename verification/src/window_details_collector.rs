use vstd::prelude::*;

verus! {

/// The element tree of the process `process_id` and the path to what has
/// the focus in it. Nothing is observed: the tree is empty and the path
/// is the root.
pub fn get_element_tree_by_process_id(process_id: &str) -> (r: (String, String))
    ensures
        r.0@ == Seq::<char>::empty(),
        r.1@ == seq!['/'],
{
    proof {
        reveal_strlit("/");
        assert("/"@ =~= seq!['/']);
    }
    (String::new(), "/".to_owned())
}

} // verus!
