use crate::text::decimal_text;
use crate::text::push_signed;
use vstd::prelude::*;
use vstd::string::StringExecFns;

pub mod amap;

verus! {

/// The failure condition of a metrics table with a fixed key set.
#[derive(Clone, Copy, Debug, PartialEq, Eq, Structural)]
pub enum MetricsError {
    /// The named counter does not exist in the table.
    KeyNotFound,
}

/// The value stored under key `k` in an association list of counters:
/// the value of the first entry whose key reads `k`, if any.
pub open spec fn lookup(s: Seq<(String, i64)>, k: Seq<char>) -> Option<int>
    decreases s.len(),
{
    if s.len() == 0 {
        None
    } else if s[0].0@ == k {
        Some(s[0].1 as int)
    } else {
        lookup(s.drop_first(), k)
    }
}

/// No two entries of the list share a key.
pub open spec fn distinct_keys(s: Seq<(String, i64)>) -> bool {
    forall|m1: int, m2: int|
        0 <= m1 < m2 < s.len() ==> (#[trigger] s[m1].0@) != (#[trigger] s[m2].0@)
}

/// `lookup` returns the value of the first entry whose key matches:
/// if no entry before `i` matches and entry `i` does (or none does at
/// all, when `i` is the length), the result is pinned.
pub(crate) proof fn lemma_lookup_first(s: Seq<(String, i64)>, k: Seq<char>, i: int)
    requires
        0 <= i <= s.len(),
        forall|m: int| 0 <= m < i ==> (#[trigger] s[m].0@) != k,
        i < s.len() ==> s[i].0@ == k,
    ensures
        lookup(s, k) == if i < s.len() {
            Some(s[i].1 as int)
        } else {
            None
        },
    decreases s.len(),
{
    if s.len() > 0 {
        if i == 0 {
        } else {
            assert(s[0].0@ != k);
            lemma_lookup_first(s.drop_first(), k, i - 1);
            assert(forall|m: int|
                0 <= m < s.drop_first().len() ==> s.drop_first()[m] == s[m + 1]);
        }
    }
}

/// Updating entry `i` (the first entry bearing its key) changes the
/// value looked up under that key and no other.
pub(crate) proof fn lemma_lookup_update(
    s: Seq<(String, i64)>,
    i: int,
    p: (String, i64),
    k: Seq<char>,
)
    requires
        0 <= i < s.len(),
        p.0@ == s[i].0@,
        forall|m: int| 0 <= m < i ==> (#[trigger] s[m].0@) != s[i].0@,
    ensures
        lookup(s.update(i, p), k) == if k == s[i].0@ {
            Some(p.1 as int)
        } else {
            lookup(s, k)
        },
    decreases s.len(),
{
    let t = s.update(i, p);
    if i == 0 {
        if k != s[0].0@ {
            assert(t.drop_first() =~= s.drop_first());
        }
    } else {
        assert(t[0] == s[0]);
        assert(s[0].0@ != s[i].0@);
        if k != s[0].0@ {
            assert(t.drop_first() =~= s.drop_first().update(i - 1, p));
            assert(forall|m: int|
                0 <= m < s.drop_first().len() ==> s.drop_first()[m] == s[m + 1]);
            lemma_lookup_update(s.drop_first(), i - 1, p, k);
        }
    }
}

/// Appending an entry leaves every present key as it was and makes the
/// new entry's key found when it was absent.
pub(crate) proof fn lemma_lookup_push(s: Seq<(String, i64)>, p: (String, i64), k: Seq<char>)
    ensures
        lookup(s.push(p), k) == match lookup(s, k) {
            Some(v) => Some(v),
            None => if p.0@ == k {
                Some(p.1 as int)
            } else {
                None
            },
        },
    decreases s.len(),
{
    let t = s.push(p);
    if s.len() == 0 {
        assert(t[0] == p);
        if p.0@ != k {
            assert(t.drop_first() =~= s);
        }
    } else {
        assert(t[0] == s[0]);
        if s[0].0@ != k {
            assert(t.drop_first() =~= s.drop_first().push(p));
            lemma_lookup_push(s.drop_first(), p, k);
        }
    }
}

/// A key that `lookup` finds belongs to some entry of the list.
pub(crate) proof fn lemma_lookup_some_member(s: Seq<(String, i64)>, k: Seq<char>)
    requires
        lookup(s, k) is Some,
    ensures
        exists|m: int| 0 <= m < s.len() && (#[trigger] s[m].0@) == k,
    decreases s.len(),
{
    if s[0].0@ == k {
        assert(s[0].0@ == k);
    } else {
        lemma_lookup_some_member(s.drop_first(), k);
        let m = choose|m: int| 0 <= m < s.drop_first().len() && (#[trigger] s.drop_first()[m].0@)
            == k;
        assert(s[m + 1].0@ == k);
    }
}

/// The first `i` entries of a counter table rendered one per line, as
/// `name: value`.
pub open spec fn entries_text(s: Seq<(String, i64)>, i: int) -> Seq<char>
    decreases i,
{
    if i <= 0 {
        Seq::empty()
    } else {
        entries_text(s, i - 1) + s[i - 1].0@ + ": "@ + decimal_text(s[i - 1].1 as int) + "\n"@
    }
}

/// Renders a counter table one entry per line, as `name: value`.
pub(crate) fn entries_string(data: &Vec<(String, i64)>) -> (r: String)
    ensures
        r@ == entries_text(data@, data@.len() as int),
{
    let mut out = String::new();
    let mut i: usize = 0;
    while i < data.len()
        invariant
            i <= data@.len(),
            out@ == entries_text(data@, i as int),
        decreases data@.len() - i,
    {
        out.append(data[i].0.as_str());
        out.append(": ");
        push_signed(&mut out, data[i].1);
        out.append("\n");
        proof {
            assert(out@ =~= entries_text(data@, i + 1));
        }
        i = i + 1;
    }
    out
}

/// Finds the position of the first entry whose key equals `key`.
pub(crate) fn find_index(data: &Vec<(String, i64)>, key: &String) -> (r: Option<usize>)
    ensures
        match r {
            Some(i) => 0 <= i < data@.len() && data@[i as int].0@ == key@ && forall|m: int|
                0 <= m < i ==> (#[trigger] data@[m].0@) != key@,
            None => forall|m: int| 0 <= m < data@.len() ==> (#[trigger] data@[m].0@) != key@,
        },
{
    let mut i: usize = 0;
    while i < data.len()
        invariant
            i <= data@.len(),
            forall|m: int| 0 <= m < i ==> (#[trigger] data@[m].0@) != key@,
        decreases data@.len() - i,
    {
        if data[i].0 == *key {
            return Some(i);
        }
        i = i + 1;
    }
    None
}

/// A table of named counters: inc, dec and snapshot. This is the
/// counter logic itself; sharing a table between threads is a matter
/// of wrapping it in whatever lock the deployment uses.
pub struct Metrics {
    data: Vec<(String, i64)>,
}

impl View for Metrics {
    type V = Seq<(String, i64)>;

    closed spec fn view(&self) -> Seq<(String, i64)> {
        self.data@
    }
}

impl Metrics {
    /// Every counter name appears at most once.
    pub open spec fn wf(&self) -> bool {
        distinct_keys(self@)
    }

    pub fn new() -> (r: Metrics)
        ensures
            r.wf(),
            r@.len() == 0,
            forall|k: Seq<char>| (#[trigger] lookup(r@, k)) is None,
    {
        Metrics { data: Vec::new() }
    }

    /// Raises the counter under `key` by one, creating it at one when
    /// it was absent; every other counter keeps its value. A counter
    /// at the top of the `i64` range may not be raised further.
    pub fn inc(&mut self, key: String)
        requires
            old(self).wf(),
            match lookup(old(self)@, key@) {
                Some(v) => v < i64::MAX,
                None => true,
            },
        ensures
            final(self).wf(),
            lookup(final(self)@, key@) == Some(
                1 + match lookup(old(self)@, key@) {
                    Some(v) => v,
                    None => 0,
                },
            ),
            forall|k2: Seq<char>|
                k2 != key@ ==> #[trigger] lookup(final(self)@, k2) == lookup(old(self)@, k2),
    {
        match find_index(&self.data, &key) {
            Some(i) => {
                proof {
                    lemma_lookup_first(self.data@, key@, i as int);
                }
                let v = self.data[i].1;
                self.data[i].1 = v + 1;
                proof {
                    let s = old(self).data@;
                    let p = (s[i as int].0, (v + 1) as i64);
                    assert(self.data@ =~= s.update(i as int, p));
                    assert forall|k2: Seq<char>| true implies lookup(self.data@, k2) == (if k2
                        == key@ {
                        Some(v + 1 as int)
                    } else {
                        lookup(s, k2)
                    }) by {
                        lemma_lookup_update(s, i as int, p, k2);
                    }
                    assert forall|m1: int, m2: int|
                        0 <= m1 < m2 < self.data@.len() implies (#[trigger] self.data@[m1].0@)
                        != (#[trigger] self.data@[m2].0@) by {
                        assert(self.data@[m1].0 == s[m1].0);
                        assert(self.data@[m2].0 == s[m2].0);
                    }
                }
            },
            None => {
                proof {
                    lemma_lookup_first(self.data@, key@, self.data@.len() as int);
                }
                let ghost s = self.data@;
                let ghost p = (key, 1i64);
                self.data.push((key, 1));
                proof {
                    assert forall|k2: Seq<char>| true implies lookup(self.data@, k2) == (if k2
                        == key@ {
                        Some(1int)
                    } else {
                        lookup(s, k2)
                    }) by {
                        lemma_lookup_push(s, p, k2);
                    }
                    assert forall|m1: int, m2: int|
                        0 <= m1 < m2 < self.data@.len() implies (#[trigger] self.data@[m1].0@)
                        != (#[trigger] self.data@[m2].0@) by {
                        if m2 == self.data@.len() - 1 {
                            assert(self.data@[m1].0@ != key@);
                        }
                    }
                }
            },
        }
    }

    /// Lowers the counter under `key` by one, creating it at minus one
    /// when it was absent; every other counter keeps its value. A
    /// counter at the bottom of the `i64` range may not be lowered
    /// further.
    pub fn dec(&mut self, key: String)
        requires
            old(self).wf(),
            match lookup(old(self)@, key@) {
                Some(v) => v > i64::MIN,
                None => true,
            },
        ensures
            final(self).wf(),
            lookup(final(self)@, key@) == Some(
                (match lookup(old(self)@, key@) {
                    Some(v) => v,
                    None => 0,
                }) - 1,
            ),
            forall|k2: Seq<char>|
                k2 != key@ ==> #[trigger] lookup(final(self)@, k2) == lookup(old(self)@, k2),
    {
        match find_index(&self.data, &key) {
            Some(i) => {
                proof {
                    lemma_lookup_first(self.data@, key@, i as int);
                }
                let v = self.data[i].1;
                self.data[i].1 = v - 1;
                proof {
                    let s = old(self).data@;
                    let p = (s[i as int].0, (v - 1) as i64);
                    assert(self.data@ =~= s.update(i as int, p));
                    assert forall|k2: Seq<char>| true implies lookup(self.data@, k2) == (if k2
                        == key@ {
                        Some(v - 1 as int)
                    } else {
                        lookup(s, k2)
                    }) by {
                        lemma_lookup_update(s, i as int, p, k2);
                    }
                    assert forall|m1: int, m2: int|
                        0 <= m1 < m2 < self.data@.len() implies (#[trigger] self.data@[m1].0@)
                        != (#[trigger] self.data@[m2].0@) by {
                        assert(self.data@[m1].0 == s[m1].0);
                        assert(self.data@[m2].0 == s[m2].0);
                    }
                }
            },
            None => {
                proof {
                    lemma_lookup_first(self.data@, key@, self.data@.len() as int);
                }
                let ghost s = self.data@;
                let ghost p = (key, -1i64);
                self.data.push((key, -1));
                proof {
                    assert forall|k2: Seq<char>| true implies lookup(self.data@, k2) == (if k2
                        == key@ {
                        Some(-1int)
                    } else {
                        lookup(s, k2)
                    }) by {
                        lemma_lookup_push(s, p, k2);
                    }
                    assert forall|m1: int, m2: int|
                        0 <= m1 < m2 < self.data@.len() implies (#[trigger] self.data@[m1].0@)
                        != (#[trigger] self.data@[m2].0@) by {
                        if m2 == self.data@.len() - 1 {
                            assert(self.data@[m1].0@ != key@);
                        }
                    }
                }
            },
        }
    }

    /// Renders the table one counter per line, as `name: value`.
    pub fn display_string(&self) -> (r: String)
        ensures
            r@ == entries_text(self@, self@.len() as int),
    {
        entries_string(&self.data)
    }

    /// A copy of every counter and its current value.
    pub fn snapshot(&self) -> (r: Vec<(String, i64)>)
        ensures
            r@ == self@,
    {
        let mut out: Vec<(String, i64)> = Vec::new();
        let mut i: usize = 0;
        while i < self.data.len()
            invariant
                i <= self.data@.len(),
                out@ == self.data@.subrange(0, i as int),
            decreases self.data@.len() - i,
        {
            let k = self.data[i].0.clone();
            let v = self.data[i].1;
            out.push((k, v));
            proof {
                assert(out@ =~= self.data@.subrange(0, i + 1));
            }
            i = i + 1;
        }
        proof {
            assert(self.data@.subrange(0, self.data@.len() as int) =~= self.data@);
        }
        out
    }
}

} // verus!
