use vstd::prelude::*;

verus! {

/// A set of tab ids, each held once, kept in the order they were added.
#[derive(Debug)]
pub struct Selection {
    ids: Vec<String>,
}

pub open spec fn strings_view(v: Seq<String>) -> Seq<Seq<char>> {
    v.map_values(|s: String| s@)
}

impl View for Selection {
    type V = Seq<Seq<char>>;

    closed spec fn view(&self) -> Seq<Seq<char>> {
        strings_view(self.ids@)
    }
}

/// `s` without the element `x`.
pub open spec fn remove_value(s: Seq<Seq<char>>, x: Seq<char>) -> Seq<Seq<char>>
    decreases s.len(),
{
    if s.len() == 0 {
        s
    } else {
        let prev = remove_value(s.drop_last(), x);
        if s.last() == x {
            prev
        } else {
            prev.push(s.last())
        }
    }
}

/// `s` with `x` added at the end, unless `x` is there already.
pub open spec fn insert_value(s: Seq<Seq<char>>, x: Seq<char>) -> Seq<Seq<char>> {
    if s.contains(x) {
        s
    } else {
        s.push(x)
    }
}

pub proof fn lemma_push_contains(p: Seq<Seq<char>>, l: Seq<char>, y: Seq<char>)
    ensures
        p.push(l).contains(y) <==> p.contains(y) || y == l,
{
    if p.contains(y) {
        let j = choose|j: int| 0 <= j < p.len() && p[j] == y;
        assert(p.push(l)[j] == y);
    }
    if y == l {
        assert(p.push(l)[p.len() as int] == y);
    }
    if p.push(l).contains(y) {
        let j = choose|j: int| 0 <= j < p.push(l).len() && p.push(l)[j] == y;
        if j < p.len() {
            assert(p[j] == y);
        }
    }
}

pub proof fn lemma_remove_value_props(s: Seq<Seq<char>>, x: Seq<char>)
    ensures
        forall|y: Seq<char>| #[trigger] remove_value(s, x).contains(y) <==> s.contains(y) && y != x,
        s.no_duplicates() ==> remove_value(s, x).no_duplicates(),
        s.no_duplicates() ==> remove_value(s, x).len() == s.len() - (if s.contains(x) {
            1int
        } else {
            0int
        }),
    decreases s.len(),
{
    if s.len() > 0 {
        let t = s.drop_last();
        lemma_remove_value_props(t, x);
        assert(s =~= t.push(s.last()));
        assert forall|y: Seq<char>| #[trigger] remove_value(s, x).contains(y) <==> s.contains(y)
            && y != x by {
            lemma_push_contains(t, s.last(), y);
            assert(remove_value(t, x).contains(y) <==> t.contains(y) && y != x);
            if s.last() != x {
                assert(remove_value(s, x) == remove_value(t, x).push(s.last()));
                lemma_push_contains(remove_value(t, x), s.last(), y);
            } else {
                assert(remove_value(s, x) == remove_value(t, x));
            }
        }
        if s.no_duplicates() {
            assert(t.no_duplicates());
            if s.last() != x {
                assert(!t.contains(s.last())) by {
                    if t.contains(s.last()) {
                        let j = choose|j: int| 0 <= j < t.len() && t[j] == s.last();
                        assert(s[j] == s[s.len() - 1]);
                    }
                }
                assert(!remove_value(t, x).contains(s.last()));
            }
            if s.contains(x) && s.last() != x {
                let j = choose|j: int| 0 <= j < s.len() && s[j] == x;
                assert(t[j] == x);
                assert(t.contains(x));
            }
            if s.last() == x {
                assert(!t.contains(x)) by {
                    if t.contains(x) {
                        let j = choose|j: int| 0 <= j < t.len() && t[j] == x;
                        assert(s[j] == s[s.len() - 1]);
                    }
                }
            }
            if !s.contains(x) {
                assert(!t.contains(x)) by {
                    if t.contains(x) {
                        let j = choose|j: int| 0 <= j < t.len() && t[j] == x;
                        assert(s[j] == x);
                    }
                }
            }
        }
    }
}

pub proof fn lemma_remove_absent(s: Seq<Seq<char>>, x: Seq<char>)
    requires
        !s.contains(x),
    ensures
        remove_value(s, x) == s,
    decreases s.len(),
{
    if s.len() > 0 {
        let t = s.drop_last();
        assert(!t.contains(x)) by {
            if t.contains(x) {
                let j = choose|j: int| 0 <= j < t.len() && t[j] == x;
                assert(s[j] == x);
            }
        }
        lemma_remove_absent(t, x);
        assert(s.last() != x) by {
            if s.last() == x {
                assert(s[s.len() - 1] == x);
            }
        }
        assert(s =~= t.push(s.last()));
    }
}

pub proof fn lemma_remove_at(s: Seq<Seq<char>>, x: Seq<char>, k: int)
    requires
        s.no_duplicates(),
        0 <= k < s.len(),
        s[k] == x,
    ensures
        remove_value(s, x) == s.remove(k),
    decreases s.len(),
{
    let t = s.drop_last();
    assert(t.no_duplicates());
    if k == s.len() - 1 {
        assert(!t.contains(x)) by {
            if t.contains(x) {
                let j = choose|j: int| 0 <= j < t.len() && t[j] == x;
                assert(s[j] == s[k]);
            }
        }
        lemma_remove_absent(t, x);
        assert(s.remove(k) =~= t);
    } else {
        lemma_remove_at(t, x, k);
        assert(s.last() != x) by {
            assert(s[s.len() - 1] != s[k]);
        }
        assert(s.remove(k) =~= t.remove(k).push(s.last()));
    }
}

impl Selection {
    /// Every id is held once.
    pub open spec fn wf(&self) -> bool {
        self@.no_duplicates()
    }

    pub fn new() -> (res: Selection)
        ensures
            res@ == Seq::<Seq<char>>::empty(),
            res.wf(),
    {
        let res = Selection { ids: Vec::new() };
        assert(res@ =~= Seq::<Seq<char>>::empty());
        res
    }

    pub fn len(&self) -> (res: usize)
        ensures
            res == self@.len(),
    {
        self.ids.len()
    }

    pub fn is_empty(&self) -> (res: bool)
        ensures
            res == (self@.len() == 0),
    {
        self.ids.len() == 0
    }

    fn position(&self, id: &str) -> (res: Option<usize>)
        ensures
            match res {
                Some(k) => k < self@.len() && self@[k as int] == id@,
                None => !self@.contains(id@),
            },
    {
        let target = String::from_str(id);
        let mut k: usize = 0;
        while k < self.ids.len()
            invariant
                k <= self.ids@.len(),
                target@ == id@,
                forall|m: int| 0 <= m < k ==> self.ids@[m]@ != id@,
            decreases self.ids@.len() - k,
        {
            if self.ids[k] == target {
                return Some(k);
            }
            k += 1;
        }
        proof {
            if self@.contains(id@) {
                let m = choose|m: int| 0 <= m < self@.len() && self@[m] == id@;
                assert(self.ids@[m]@ == id@);
            }
        }
        None
    }

    pub fn contains(&self, id: &str) -> (res: bool)
        ensures
            res == self@.contains(id@),
    {
        self.position(id).is_some()
    }

    /// Adds `id` unless it is already there.
    pub fn insert(&mut self, id: String)
        requires
            old(self).wf(),
        ensures
            final(self).wf(),
            final(self)@ == insert_value(old(self)@, id@),
    {
        if self.position(id.as_str()).is_none() {
            let ghost before = self@;
            self.ids.push(id);
            proof {
                assert(self@ =~= before.push(id@));
                assert forall|a: int, b: int|
                    0 <= a < self@.len() && 0 <= b < self@.len() && a != b implies self@[a]
                    != self@[b] by {
                    if a < before.len() && b < before.len() {
                    } else if a == before.len() {
                        assert(before.contains(before[b]));
                    } else {
                        assert(before.contains(before[a]));
                    }
                }
            }
        }
    }

    /// Takes `id` out, where it is there.
    pub fn remove(&mut self, id: &str)
        requires
            old(self).wf(),
        ensures
            final(self).wf(),
            final(self)@ == remove_value(old(self)@, id@),
    {
        match self.position(id) {
            Some(k) => {
                let ghost before = self@;
                self.ids.remove(k);
                proof {
                    assert(self@ =~= before.remove(k as int));
                    lemma_remove_at(before, id@, k as int);
                    lemma_remove_value_props(before, id@);
                }
            },
            None => {
                proof {
                    lemma_remove_absent(self@, id@);
                }
            },
        }
    }

    pub fn clear(&mut self)
        ensures
            final(self)@ == Seq::<Seq<char>>::empty(),
            final(self).wf(),
    {
        self.ids.clear();
        assert(self@ =~= Seq::<Seq<char>>::empty());
    }

    /// Empties the selection and hands back what it held, in order.
    pub fn take_all(&mut self) -> (res: Vec<String>)
        ensures
            strings_view(res@) == old(self)@,
            final(self)@ == Seq::<Seq<char>>::empty(),
            final(self).wf(),
    {
        let mut out: Vec<String> = Vec::new();
        std::mem::swap(&mut out, &mut self.ids);
        assert(self@ =~= Seq::<Seq<char>>::empty());
        out
    }
}

} // verus!
