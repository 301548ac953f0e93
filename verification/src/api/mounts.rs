//! a receipt of the mounts a backend made for one layer, in creation order.
//! the registry stores it and hands it back at eviction

use vstd::prelude::*;

verus! {

#[derive(Debug, Default, PartialEq, Eq)]
pub struct Mounts {
    points: Vec<String>,
}

impl View for Mounts {
    type V = Seq<Seq<char>>;

    closed spec fn view(&self) -> Seq<Seq<char>> {
        self.points@.map_values(|p: String| p@)
    }
}

impl Clone for Mounts {
    fn clone(&self) -> (m: Self)
        ensures
            m@ == self@,
    {
        let m = Mounts { points: self.points.clone() };
        assert(m.points@ =~= self.points@);
        m
    }
}

impl Mounts {
    pub fn new() -> (m: Self)
        ensures
            m@ == Seq::<Seq<char>>::empty(),
    {
        let m = Mounts { points: Vec::new() };
        assert(m@ =~= Seq::<Seq<char>>::empty());
        m
    }

    /// record a mount point the backend just created, in the order created
    pub fn record(&mut self, point: &str)
        ensures
            final(self)@ == old(self)@.push(point@),
    {
        self.points.push(String::from_str(point));
        assert(self@ =~= old(self)@.push(point@));
    }

    /// the mount points in teardown order: the reverse of creation, so an
    /// overlay is unmounted before the lower it was stacked on
    pub fn teardown_order(&self) -> (out: Vec<String>)
        ensures
            out@.map_values(|p: String| p@) == self@.reverse(),
    {
        let mut out: Vec<String> = Vec::new();
        let n = self.points.len();
        let mut i = n;
        while i > 0
            invariant
                n == self.points@.len(),
                i <= n,
                out@.len() == n - i,
                forall|k: int| 0 <= k < n - i ==> #[trigger] out@[k]@ == self.points@[n - 1 - k]@,
            decreases i,
        {
            i -= 1;
            let p = self.points[i].clone();
            out.push(p);
        }
        assert(out@.map_values(|p: String| p@) =~= self@.reverse());
        out
    }
}

/// Teardown undoes creation: the point recorded last is torn down first,
/// followed by the earlier ones in their own teardown order.
pub proof fn law_record_then_teardown(before: Seq<Seq<char>>, point: Seq<char>)
    ensures
        before.push(point).reverse() == seq![point] + before.reverse(),
{
    assert(before.push(point).reverse() =~= seq![point] + before.reverse());
}

} // verus!
