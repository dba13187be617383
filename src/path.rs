use vstd::prelude::*;

use crate::text::joined;

verus! {

/// A lookup key sequence such as `name.first`, or the single key `.` for
/// the current context.
#[derive(Debug, PartialEq)]
pub struct Path {
    pub keys: Vec<String>,
}

/// The characters of each key.
pub open spec fn keys_view(keys: Seq<String>) -> Seq<Seq<char>> {
    keys.map_values(|k: String| k@)
}

impl Path {
    pub open spec fn view(&self) -> Seq<Seq<char>> {
        keys_view(self.keys@)
    }

    pub fn new(keys: Vec<String>) -> (r: Path)
        ensures
            r.keys@ == keys@,
    {
        Path { keys: keys }
    }

    /// A copy of the path.
    pub fn cloned(&self) -> (r: Path)
        ensures
            r.view() == self.view(),
    {
        let mut keys: Vec<String> = Vec::new();
        let mut i: usize = 0;
        while i < self.keys.len()
            invariant
                i <= self.keys.len(),
                keys_view(keys@) == keys_view(self.keys@).subrange(0, i as int),
            decreases self.keys.len() - i,
        {
            let ghost before = keys_view(keys@);
            let k = self.keys[i].clone();
            keys.push(k);
            assert(keys_view(keys@) =~= before.push(self.keys@[i as int]@));
            assert(keys_view(keys@) =~= keys_view(self.keys@).subrange(0, i + 1));
            i = i + 1;
        }
        assert(keys_view(self.keys@).subrange(0, i as int) =~= keys_view(self.keys@));
        Path { keys: keys }
    }

    /// The keys joined by dots: `name.first`.
    pub fn to_string(&self) -> (r: String)
        ensures
            r@ == joined(self.view(), '.'),
    {
        let mut r = String::new();
        let mut i: usize = 0;
        while i < self.keys.len()
            invariant
                i <= self.keys.len(),
                r@ == joined(self.view().subrange(0, i as int), '.'),
            decreases self.keys.len() - i,
        {
            let ghost done = self.view().subrange(0, i as int);
            if i > 0 {
                r.push('.');
            }
            r.append(self.keys[i].as_str());
            proof {
                let next = self.view().subrange(0, i + 1);
                assert(next.drop_last() =~= done);
                if i == 0 {
                    assert(r@ =~= next[0]);
                }
            }
            i = i + 1;
        }
        assert(self.view().subrange(0, self.keys.len() as int) =~= self.view());
        r
    }
}

} // verus!
