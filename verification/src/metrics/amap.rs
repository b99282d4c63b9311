use crate::metrics::{
    distinct_keys, entries_string, entries_text, find_index, lemma_lookup_first,
    lemma_lookup_push, lemma_lookup_some_member, lemma_lookup_update, lookup, MetricsError,
};
use vstd::prelude::*;

verus! {

/// The value of a counter after a wrapping increment, as an atomic
/// fetch-and-add of one behaves: the top of the `i64` range wraps to
/// the bottom.
pub open spec fn spec_wrap_inc(v: int) -> int {
    if v == i64::MAX {
        i64::MIN as int
    } else {
        v + 1
    }
}

/// A table of counters over a key set that is fixed at construction:
/// incrementing an unknown key fails instead of creating it. This is
/// the counter logic itself; sharing the table between threads is a
/// matter of wrapping it in whatever synchronization the deployment
/// uses.
pub struct AmapMetrics {
    data: Vec<(String, i64)>,
}

impl View for AmapMetrics {
    type V = Seq<(String, i64)>;

    closed spec fn view(&self) -> Seq<(String, i64)> {
        self.data@
    }
}

impl AmapMetrics {
    /// Every counter name appears at most once.
    pub open spec fn wf(&self) -> bool {
        distinct_keys(self@)
    }

    /// Builds a table holding exactly the given names, duplicates
    /// collapsed, every counter starting at zero.
    pub fn new(metric_name: &[&str]) -> (r: AmapMetrics)
        ensures
            r.wf(),
            forall|m: int|
                0 <= m < metric_name@.len() ==> #[trigger] lookup(r@, metric_name@[m]@) == Some(
                    0int,
                ),
            forall|k2: Seq<char>|
                (#[trigger] lookup(r@, k2)) is Some ==> exists|m: int|
                    0 <= m < metric_name@.len() && (#[trigger] metric_name@[m])@ == k2,
    {
        let mut data: Vec<(String, i64)> = Vec::new();
        let mut i: usize = 0;
        while i < metric_name.len()
            invariant
                distinct_keys(data@),
                i <= metric_name@.len(),
                forall|m: int|
                    0 <= m < i ==> #[trigger] lookup(data@, metric_name@[m]@) == Some(0int),
                forall|m: int| 0 <= m < data@.len() ==> (#[trigger] data@[m].1) == 0,
                forall|m: int|
                    0 <= m < data@.len() ==> exists|m2: int|
                        0 <= m2 < i && (#[trigger] data@[m].0@) == metric_name@[m2]@,
            decreases metric_name@.len() - i,
        {
            let owned = metric_name[i].to_owned();
            match find_index(&data, &owned) {
                Some(at) => {
                    proof {
                        lemma_lookup_first(data@, owned@, at as int);
                    }
                },
                None => {
                    proof {
                        lemma_lookup_first(data@, owned@, data@.len() as int);
                    }
                    let ghost s = data@;
                    let ghost p = (owned, 0i64);
                    data.push((owned, 0));
                    proof {
                        assert forall|k2: Seq<char>| true implies lookup(data@, k2) == (if k2
                            == p.0@ {
                            Some(0int)
                        } else {
                            lookup(s, k2)
                        }) by {
                            lemma_lookup_push(s, p, k2);
                        }
                        assert forall|m1: int, m2: int|
                            0 <= m1 < m2 < data@.len() implies (#[trigger] data@[m1].0@)
                            != (#[trigger] data@[m2].0@) by {
                            if m2 == data@.len() - 1 {
                                assert(data@[m1].0@ != p.0@);
                            }
                        }
                    }
                },
            }
            i = i + 1;
        }
        proof {
            assert forall|k2: Seq<char>| (#[trigger] lookup(data@, k2)) is Some implies exists|
                m: int,
            |
                0 <= m < metric_name@.len() && (#[trigger] metric_name@[m])@ == k2 by {
                lemma_lookup_some_member(data@, k2);
                let m = choose|m: int| 0 <= m < data@.len() && (#[trigger] data@[m].0@) == k2;
                let m2 = choose|m2: int|
                    0 <= m2 < i && (#[trigger] data@[m].0@) == metric_name@[m2]@;
                assert(metric_name@[m2]@ == k2);
            }
        }
        AmapMetrics { data }
    }

    /// Raises the counter under `key` by one with wrapping overflow,
    /// as an atomic fetch-and-add would; fails with `KeyNotFound`, and
    /// changes nothing, when the key is not in the table.
    pub fn inc(&mut self, key: &str) -> (r: Result<(), MetricsError>)
        requires
            old(self).wf(),
        ensures
            final(self).wf(),
            r is Ok <==> lookup(old(self)@, key@) is Some,
            forall|k2: Seq<char>|
                k2 != key@ ==> #[trigger] lookup(final(self)@, k2) == lookup(old(self)@, k2),
            match lookup(old(self)@, key@) {
                Some(v) => lookup(final(self)@, key@) == Some(spec_wrap_inc(v)),
                None => final(self)@ == old(self)@ && r == Err::<(), MetricsError>(
                    MetricsError::KeyNotFound,
                ),
            },
    {
        let owned = key.to_owned();
        match find_index(&self.data, &owned) {
            Some(i) => {
                proof {
                    lemma_lookup_first(self.data@, owned@, i as int);
                }
                let v = self.data[i].1;
                let next = if v == i64::MAX {
                    i64::MIN
                } else {
                    v + 1
                };
                self.data[i].1 = next;
                proof {
                    let s = old(self).data@;
                    let p = (s[i as int].0, spec_wrap_inc(v as int) as i64);
                    assert(self.data@ =~= s.update(i as int, p));
                    assert forall|k2: Seq<char>| true implies lookup(self.data@, k2) == (if k2
                        == key@ {
                        Some(spec_wrap_inc(v as int))
                    } else {
                        lookup(s, k2)
                    }) by {
                        lemma_lookup_update(s, i as int, p, k2);
                    }
                    assert forall|m1: int, m2: int|
                        0 <= m1 < m2 < self.data@.len() implies (#[trigger] self.data@[m1].0@)
                        != (#[trigger] self.data@[m2].0@) by {
                        assert(self.data@[m1].0 == s[m1].0);
                        assert(self.data@[m2].0 == s[m2].0);
                    }
                }
                Ok(())
            },
            None => {
                proof {
                    lemma_lookup_first(self.data@, owned@, self.data@.len() as int);
                }
                Err(MetricsError::KeyNotFound)
            },
        }
    }

    /// Renders the table one counter per line, as `name: value`.
    pub fn display_string(&self) -> (r: String)
        ensures
            r@ == entries_text(self@, self@.len() as int),
    {
        entries_string(&self.data)
    }
}

} // verus!
