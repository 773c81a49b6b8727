//! Downloaded responses, and the joining of selections made on them.
use crate::request::Request;
use vstd::prelude::*;

verus! {

/// A downloaded response, with the request it answers.
pub struct Response<C> {
    pub request: Request<C>,
    /// The HTTP status code.
    pub status: u16,
    pub headers: http::HeaderMap,
    pub body: Vec<u8>,
    /// The body decoded as UTF-8, invalid sequences replaced.
    pub text: String,
}

/// The sequences of a sequence of vectors.
pub open spec fn vec_views<S>(lists: Seq<Vec<S>>) -> Seq<Seq<S>> {
    lists.map_values(|v: Vec<S>| v@)
}

/// Joins the selections that a query made on each selected node, keeping
/// the order of the nodes and, within a node, of its selections.
pub fn flatten_selections<S>(lists: Vec<Vec<S>>) -> (r: Vec<S>)
    ensures
        r@ == vec_views(lists@).flatten(),
{
    let ghost all = lists@;
    let mut out: Vec<S> = Vec::new();
    let mut rest = lists;
    proof {
        assert(vec_views(all.take(0)).flatten() =~= Seq::<S>::empty());
    }
    let n = rest.len();
    let mut i: usize = 0;
    while i < n
        invariant
            n == all.len(),
            i <= n,
            rest@ == all.skip(i as int),
            out@ == vec_views(all.take(i as int)).flatten(),
        decreases n - i,
    {
        let mut v = rest.remove(0);
        let ghost piece = all[i as int]@;
        proof {
            assert(v@ == piece);
            let t = vec_views(all.take(i as int));
            assert(vec_views(all.take(i + 1)) =~= t.push(piece));
            t.lemma_flatten_push(piece);
        }
        out.append(&mut v);
        assert(out@ == vec_views(all.take(i + 1)).flatten());
        i = i + 1;
        assert(rest@ =~= all.skip(i as int));
    }
    assert(all.take(n as int) =~= all);
    out
}

} // verus!
