use vstd::prelude::*;
use vstd::string::StringExecFns;

verus! {

/// `a` and `b` joined with one path separator between them.
pub open spec fn path_join(a: Seq<char>, b: Seq<char>) -> Seq<char> {
    a + seq!['/'] + b
}

/// Joins two path fragments with a separator, as the resolver does when it
/// descends from an experiment root to one of its files.
pub fn join_paths(a: &str, b: &str) -> (r: String)
    ensures
        r@ == path_join(a@, b@),
{
    let r = String::from_str(a).concat("/").concat(b);
    proof {
        reveal_strlit("/");
        assert(r@ =~= path_join(a@, b@));
    }
    r
}

} // verus!
