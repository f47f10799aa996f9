//! A small ordered header map: string keys to string values, with
//! replace-or-append insertion, so that contracts can say exactly which value
//! a header ends up with.

use vstd::prelude::*;

use crate::text::string_eq_str;

verus! {

/// First value bound to a header name.
pub open spec fn hdr_get(s: Seq<(Seq<char>, Seq<char>)>, k: Seq<char>) -> Option<Seq<char>>
    decreases s.len(),
{
    if s.len() == 0 {
        None
    } else if s[0].0 == k {
        Some(s[0].1)
    } else {
        hdr_get(s.drop_first(), k)
    }
}

/// Rebinds a header: the first occurrence is replaced in place, or the pair
/// is appended when the name is new.
pub open spec fn hdr_put(
    s: Seq<(Seq<char>, Seq<char>)>,
    k: Seq<char>,
    v: Seq<char>,
) -> Seq<(Seq<char>, Seq<char>)>
    decreases s.len(),
{
    if s.len() == 0 {
        seq![(k, v)]
    } else if s[0].0 == k {
        seq![(s[0].0, v)] + s.drop_first()
    } else {
        seq![s[0]] + hdr_put(s.drop_first(), k, v)
    }
}

/// `hdr_put` folded over a list of entries, in order.
pub open spec fn hdr_put_all(
    s: Seq<(Seq<char>, Seq<char>)>,
    es: Seq<(Seq<char>, Seq<char>)>,
) -> Seq<(Seq<char>, Seq<char>)>
    decreases es.len(),
{
    if es.len() == 0 {
        s
    } else {
        hdr_put(hdr_put_all(s, es.drop_last()), es.last().0, es.last().1)
    }
}

proof fn lemma_hdr_get_skip(s: Seq<(Seq<char>, Seq<char>)>, k: Seq<char>, i: int)
    requires
        0 <= i <= s.len(),
        forall|j: int| 0 <= j < i ==> (#[trigger] s[j]).0 != k,
    ensures
        hdr_get(s, k) == hdr_get(s.skip(i), k),
    decreases i,
{
    if i > 0 {
        let t = s.drop_first();
        assert(forall|j: int| 0 <= j < i - 1 ==> (#[trigger] t[j]).0 == s[j + 1].0);
        lemma_hdr_get_skip(t, k, i - 1);
        assert(t.skip(i - 1) =~= s.skip(i));
        assert(s.skip(0) =~= s);
    } else {
        assert(s.skip(0) =~= s);
    }
}

proof fn lemma_hdr_put_found(s: Seq<(Seq<char>, Seq<char>)>, k: Seq<char>, v: Seq<char>, i: int)
    requires
        0 <= i < s.len(),
        forall|j: int| 0 <= j < i ==> (#[trigger] s[j]).0 != k,
        s[i].0 == k,
    ensures
        hdr_put(s, k, v) == s.update(i, (s[i].0, v)),
    decreases i,
{
    if i == 0 {
        assert(hdr_put(s, k, v) =~= s.update(0, (s[0].0, v)));
    } else {
        let t = s.drop_first();
        assert(forall|j: int| 0 <= j < i - 1 ==> (#[trigger] t[j]).0 == s[j + 1].0);
        lemma_hdr_put_found(t, k, v, i - 1);
        assert(seq![s[0]] + t.update(i - 1, (t[i - 1].0, v)) =~= s.update(i, (s[i].0, v)));
    }
}

proof fn lemma_hdr_put_missing(s: Seq<(Seq<char>, Seq<char>)>, k: Seq<char>, v: Seq<char>)
    requires
        forall|j: int| 0 <= j < s.len() ==> (#[trigger] s[j]).0 != k,
    ensures
        hdr_put(s, k, v) == s.push((k, v)),
    decreases s.len(),
{
    if s.len() == 0 {
        assert(hdr_put(s, k, v) =~= s.push((k, v)));
    } else {
        let t = s.drop_first();
        assert(forall|j: int| 0 <= j < t.len() ==> (#[trigger] t[j]).0 == s[j + 1].0);
        lemma_hdr_put_missing(t, k, v);
        assert(seq![s[0]] + t.push((k, v)) =~= s.push((k, v)));
    }
}

/// An ordered map of HTTP header names to values.
#[derive(Debug, PartialEq)]
pub struct Headers {
    pub entries: Vec<(String, String)>,
}

impl View for Headers {
    type V = Seq<(Seq<char>, Seq<char>)>;

    open spec fn view(&self) -> Seq<(Seq<char>, Seq<char>)> {
        self.entries.deep_view()
    }
}

impl Headers {
    /// An empty header map.
    pub fn new() -> (r: Headers)
        ensures
            r@ == Seq::<(Seq<char>, Seq<char>)>::empty(),
    {
        let r = Headers { entries: Vec::new() };
        proof {
            assert(r@ =~~= Seq::<(Seq<char>, Seq<char>)>::empty());
        }
        r
    }

    /// Binds a header name to a value; an existing binding is overwritten in
    /// place.
    pub fn insert(&mut self, key: &str, value: String)
        ensures
            final(self)@ == hdr_put(old(self)@, key@, value@),
    {
        let ghost t = old(self)@;
        proof {
            assert(forall|j: int|
                0 <= j < self.entries@.len() ==> #[trigger] t[j] == (
                    self.entries@[j].0@,
                    self.entries@[j].1@,
                ));
        }
        let mut i: usize = 0;
        while i < self.entries.len()
            invariant
                0 <= i <= self.entries@.len(),
                self.entries@ == old(self).entries@,
                t == old(self)@,
                t.len() == self.entries@.len(),
                forall|j: int|
                    0 <= j < self.entries@.len() ==> #[trigger] t[j] == (
                        self.entries@[j].0@,
                        self.entries@[j].1@,
                    ),
                forall|j: int| 0 <= j < i ==> (#[trigger] t[j]).0 != key@,
            decreases self.entries@.len() - i,
        {
            if string_eq_str(&self.entries[i].0, key) {
                let ghost vv = value@;
                let pair = self.entries.remove(i);
                self.entries.insert(i, (pair.0, value));
                proof {
                    lemma_hdr_put_found(t, key@, vv, i as int);
                    assert(self.entries@ =~= old(self).entries@.update(
                        i as int,
                        (old(self).entries@[i as int].0, self.entries@[i as int].1),
                    ));
                    assert(self@ =~~= t.update(i as int, (t[i as int].0, vv)));
                }
                return ;
            }
            i += 1;
        }
        let ghost vv = value@;
        self.entries.push((String::from_str(key), value));
        proof {
            lemma_hdr_put_missing(t, key@, vv);
            assert(self@ =~~= t.push((key@, vv)));
        }
    }

    /// The value bound to a header name, if any.
    pub fn get<'a>(&'a self, key: &str) -> (r: Option<&'a String>)
        ensures
            match r {
                Some(v) => hdr_get(self@, key@) == Some(v@),
                None => hdr_get(self@, key@) is None,
            },
    {
        let ghost t = self@;
        proof {
            assert(forall|j: int|
                0 <= j < self.entries@.len() ==> #[trigger] t[j] == (
                    self.entries@[j].0@,
                    self.entries@[j].1@,
                ));
            assert(t.skip(0) =~= t);
        }
        let mut i: usize = 0;
        while i < self.entries.len()
            invariant
                0 <= i <= self.entries@.len(),
                t == self@,
                t.len() == self.entries@.len(),
                forall|j: int|
                    0 <= j < self.entries@.len() ==> #[trigger] t[j] == (
                        self.entries@[j].0@,
                        self.entries@[j].1@,
                    ),
                forall|j: int| 0 <= j < i ==> (#[trigger] t[j]).0 != key@,
            decreases self.entries@.len() - i,
        {
            if string_eq_str(&self.entries[i].0, key) {
                proof {
                    lemma_hdr_get_skip(t, key@, i as int);
                    assert(t.skip(i as int)[0] == t[i as int]);
                    assert(t.skip(i as int).len() > 0);
                }
                return Some(&self.entries[i].1);
            }
            i += 1;
        }
        proof {
            lemma_hdr_get_skip(t, key@, t.len() as int);
            assert(t.skip(t.len() as int) =~= Seq::<(Seq<char>, Seq<char>)>::empty());
        }
        None
    }

    /// How many headers are set.
    pub fn len(&self) -> (r: usize)
        ensures
            r == self@.len(),
    {
        self.entries.len()
    }
}

} // verus!
