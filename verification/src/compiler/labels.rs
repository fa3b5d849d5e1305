use vstd::prelude::*;

verus! {

/// The map of the entries `(name, offset)`, a later entry replacing an
/// earlier one of the same name.
pub open spec fn entries_map(entries: Seq<(Seq<char>, u64)>) -> Map<Seq<char>, u64>
    decreases entries.len(),
{
    if entries.len() == 0 {
        Map::empty()
    } else {
        entries_map(entries.drop_last()).insert(entries.last().0, entries.last().1)
    }
}

/// Label names and the byte offsets, in the assembled program, of the
/// instructions they mark.
pub struct Labels {
    entries: Vec<(Vec<char>, u64)>,
}

impl Labels {
    pub closed spec fn entry_views(&self) -> Seq<(Seq<char>, u64)> {
        Seq::new(self.entries@.len(), |i: int| (self.entries@[i].0@, self.entries@[i].1))
    }
}

impl View for Labels {
    type V = Map<Seq<char>, u64>;

    closed spec fn view(&self) -> Map<Seq<char>, u64> {
        entries_map(self.entry_views())
    }
}

/// Whether two strings of characters are equal.
pub fn chars_equal(a: &[char], b: &[char]) -> (r: bool)
    ensures
        r == (a@ == b@),
{
    if a.len() != b.len() {
        return false;
    }
    let mut i: usize = 0;
    while i < a.len()
        invariant
            a@.len() == b@.len(),
            i <= a@.len(),
            forall|j: int| 0 <= j < i ==> a@[j] == b@[j],
        decreases a@.len() - i,
    {
        if a[i] != b[i] {
            return false;
        }
        i = i + 1;
    }
    proof {
        assert(a@ =~= b@);
    }
    true
}

impl Labels {
    pub fn new() -> (r: Labels)
        ensures
            r@ == Map::<Seq<char>, u64>::empty(),
    {
        let r = Labels { entries: Vec::new() };
        proof {
            assert(r.entry_views() =~= Seq::<(Seq<char>, u64)>::empty());
        }
        r
    }

    /// Sets the offset of `name`, replacing any earlier one.
    pub fn insert(&mut self, name: Vec<char>, offset: u64)
        ensures
            final(self)@ == old(self)@.insert(name@, offset),
    {
        let ghost old_views = self.entry_views();
        self.entries.push((name, offset));
        proof {
            assert(self.entry_views().drop_last() =~= old_views);
        }
    }

    /// The offset of `name`, if it is a label.
    pub fn get(&self, name: &[char]) -> (r: Option<u64>)
        ensures
            r is Some <==> self@.contains_key(name@),
            r is Some ==> r->0 == self@[name@],
    {
        let ghost views = self.entry_views();
        let mut i: usize = self.entries.len();
        proof {
            assert(views.take(i as int) =~= views);
        }
        while i > 0
            invariant
                i <= views.len(),
                views == self.entry_views(),
                views.len() == self.entries@.len(),
                entries_map(views).contains_key(name@) == entries_map(views.take(i as int)).contains_key(name@),
                entries_map(views.take(i as int)).contains_key(name@) ==> entries_map(views).index(name@)
                    == entries_map(views.take(i as int)).index(name@),
            decreases i,
        {
            let ghost prefix = views.take(i as int);
            proof {
                assert(prefix.drop_last() =~= views.take(i - 1));
                assert(prefix.last() == views[i - 1]);
            }
            if chars_equal(self.entries[i - 1].0.as_slice(), name) {
                return Some(self.entries[i - 1].1);
            }
            i = i - 1;
        }
        proof {
            assert(views.take(0) =~= Seq::<(Seq<char>, u64)>::empty());
        }
        None
    }
}

} // verus!
