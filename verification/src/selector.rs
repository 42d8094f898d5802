//! The version selector: reduces probe results to the mirrors that
//! report the maximum observed version. With no version data at all
//! the selection is empty — mirrors of unknown freshness are never
//! served.

use vstd::prelude::*;
use crate::events::ProgressEvent;
use crate::mirror::{Mirror, VersionedMirror};

verus! {

/// The larger of two optional versions; an absent one never wins.
pub open spec fn opt_max(a: Option<usize>, b: Option<usize>) -> Option<usize> {
    match (a, b) {
        (None, r) => r,
        (Some(x), None) => Some(x),
        (Some(x), Some(y)) => if x >= y {
            Some(x)
        } else {
            Some(y)
        },
    }
}

/// The maximum update number among the results, absent ones ignored.
pub open spec fn max_version(s: Seq<VersionedMirror>) -> Option<usize>
    decreases s.len(),
{
    if s.len() == 0 {
        None
    } else {
        opt_max(s[0].update_number, max_version(s.drop_first()))
    }
}

/// True when `o` is absent or at most `v`.
pub open spec fn version_le(o: Option<usize>, v: usize) -> bool {
    match o {
        None => true,
        Some(w) => w <= v,
    }
}

/// The mirrors of the results whose update number equals `v`, in
/// order.
pub open spec fn selected(s: Seq<VersionedMirror>, v: usize) -> Seq<Mirror>
    decreases s.len(),
{
    if s.len() == 0 {
        seq![]
    } else {
        let rest = selected(s.drop_first(), v);
        if s[0].update_number == Some(v) {
            seq![s[0].mirror] + rest
        } else {
            rest
        }
    }
}

/// The maximum version, when present, is carried by some result and
/// bounds every recorded version; when absent, no result carries a
/// version at all.
pub proof fn lemma_max_version_props(s: Seq<VersionedMirror>)
    ensures
        max_version(s) matches Some(v) ==> exists|i: int|
            0 <= i < s.len() && #[trigger] s[i].update_number == Some(v),
        max_version(s) matches Some(v) ==> forall|i: int|
            0 <= i < s.len() ==> version_le(#[trigger] s[i].update_number, v),
        max_version(s) is None ==> forall|i: int|
            0 <= i < s.len() ==> #[trigger] s[i].update_number is None,
    decreases s.len(),
{
    if s.len() == 0 {
    } else {
        lemma_max_version_props(s.drop_first());
        assert forall|i: int| 1 <= i < s.len() implies s.drop_first()[i - 1]
            == s[i] by {}
        match max_version(s) {
            None => {},
            Some(v) => {
                if s[0].update_number == Some(v) {
                    assert(0 <= 0 < s.len() && s[0].update_number == Some(v));
                } else {
                    assert(max_version(s.drop_first()) == Some(v));
                    let j = choose|j: int|
                        0 <= j < s.drop_first().len()
                            && #[trigger] s.drop_first()[j].update_number == Some(v);
                    assert(s[j + 1].update_number == Some(v));
                }
            },
        }
    }
}

/// Law: the selection at `v` is exact. Every result that carries `v`
/// contributes its mirror, and every kept mirror comes from a result
/// that carries `v`; results behind `v` contribute nothing.
pub proof fn lemma_selected_exact(s: Seq<VersionedMirror>, v: usize)
    ensures
        forall|i: int|
            0 <= i < s.len() && #[trigger] s[i].update_number == Some(v) ==> selected(
                s,
                v,
            ).contains(s[i].mirror),
        forall|m: Mirror| #[trigger]
            selected(s, v).contains(m) ==> exists|i: int|
                0 <= i < s.len() && #[trigger] s[i].update_number == Some(v) && s[i].mirror == m,
    decreases s.len(),
{
    if s.len() == 0 {
    } else {
        let rest = s.drop_first();
        lemma_selected_exact(rest, v);
        assert forall|i: int|
            0 <= i < s.len() && #[trigger] s[i].update_number == Some(v) implies selected(
            s,
            v,
        ).contains(s[i].mirror) by {
            if i == 0 {
                assert(selected(s, v)[0] == s[0].mirror);
            } else {
                assert(rest[i - 1] == s[i]);
                assert(selected(rest, v).contains(s[i].mirror));
                let j = choose|j: int|
                    0 <= j < selected(rest, v).len() && selected(rest, v)[j] == s[i].mirror;
                if s[0].update_number == Some(v) {
                    assert(selected(s, v)[j + 1] == s[i].mirror);
                } else {
                    assert(selected(s, v)[j] == s[i].mirror);
                }
            }
        }
        assert forall|m: Mirror| #[trigger] selected(s, v).contains(m) implies exists|i: int|
            0 <= i < s.len() && #[trigger] s[i].update_number == Some(v) && s[i].mirror == m by {
            let k = choose|k: int| 0 <= k < selected(s, v).len() && selected(s, v)[k] == m;
            if s[0].update_number == Some(v) && k == 0 {
                assert(s[0].update_number == Some(v) && s[0].mirror == m);
            } else {
                let k2: int = if s[0].update_number == Some(v) {
                    k - 1
                } else {
                    k
                };
                assert(selected(rest, v)[k2] == m);
                assert(selected(rest, v).contains(m));
                let i = choose|i: int|
                    0 <= i < rest.len() && #[trigger] rest[i].update_number == Some(v)
                        && rest[i].mirror == m;
                assert(s[i + 1].update_number == Some(v) && s[i + 1].mirror == m);
            }
        }
    }
}

/// Law: when some result carries the maximum version, the selection
/// at that version is never empty.
pub proof fn lemma_selected_at_max_nonempty(s: Seq<VersionedMirror>, v: usize)
    requires
        max_version(s) == Some(v),
    ensures
        selected(s, v).len() > 0,
    decreases s.len(),
{
    if s[0].update_number == Some(v) {
    } else {
        lemma_selected_at_max_nonempty(s.drop_first(), v);
    }
}

/// Reduces probe results to the mirrors that share the maximum
/// version, in completion order, together with the event that
/// announces the version. With no version data at all the selection
/// is empty and there is no event.
pub fn select_latest(results: Vec<VersionedMirror>) -> (r: (Vec<Mirror>, Option<ProgressEvent>))
    ensures
        max_version(results@) is None ==> r.0@ == Seq::<Mirror>::empty() && r.1 is None,
        max_version(results@) matches Some(v) ==> {
            &&& r.0@ == selected(results@, v)
            &&& r.0@.len() > 0
            &&& r.1 == Some(ProgressEvent::TakingLatest { version: v })
        },
{
    let ghost all = results@;
    let n = results.len();
    let mut mx: Option<usize> = None;
    let mut i: usize = 0;
    proof {
        assert(results@.subrange(0, n as int) =~= all);
    }
    while i < n
        invariant
            i <= n,
            n == results@.len(),
            all == results@,
            opt_max(mx, max_version(results@.subrange(i as int, n as int))) == max_version(all),
        decreases n - i,
    {
        let ghost suffix = results@.subrange(i as int, n as int);
        let u = results[i].update_number;
        let next: Option<usize> = match (mx, u) {
            (None, w) => w,
            (Some(x), None) => Some(x),
            (Some(x), Some(y)) => if x >= y {
                Some(x)
            } else {
                Some(y)
            },
        };
        proof {
            assert(suffix[0] == results@[i as int]);
            assert(suffix.drop_first() =~= results@.subrange(i + 1, n as int));
            assert(max_version(suffix) == opt_max(u, max_version(suffix.drop_first())));
            assert(opt_max(next, max_version(suffix.drop_first())) == opt_max(
                mx,
                opt_max(u, max_version(suffix.drop_first())),
            ));
        }
        mx = next;
        i += 1;
    }
    proof {
        assert(results@.subrange(n as int, n as int) =~= Seq::<VersionedMirror>::empty());
        assert(opt_max(mx, None) == mx);
    }
    match mx {
        None => (Vec::new(), None),
        Some(v) => {
            proof {
                lemma_selected_at_max_nonempty(all, v);
            }
            let mut rest = results;
            let mut out: Vec<Mirror> = Vec::new();
            proof {
                assert(out@ + selected(rest@, v) =~= selected(all, v));
            }
            while rest.len() > 0
                invariant
                    out@ + selected(rest@, v) == selected(all, v),
                decreases rest.len(),
            {
                let ghost rest0 = rest@;
                let ghost out0 = out@;
                let vm = rest.remove(0);
                proof {
                    assert(rest@ =~= rest0.drop_first());
                }
                match vm.update_number {
                    Some(u) => {
                        if u == v {
                            out.push(vm.mirror);
                            proof {
                                assert(selected(rest0, v) == seq![rest0[0].mirror] + selected(
                                    rest0.drop_first(),
                                    v,
                                ));
                                assert(out@ =~= out0 + seq![rest0[0].mirror]);
                                assert(out@ + selected(rest@, v) =~= out0 + selected(rest0, v));
                            }
                        } else {
                            proof {
                                assert(selected(rest0, v) == selected(rest0.drop_first(), v));
                            }
                        }
                    },
                    None => {
                        proof {
                            assert(selected(rest0, v) == selected(rest0.drop_first(), v));
                        }
                    },
                }
            }
            proof {
                assert(selected(rest@, v) == Seq::<Mirror>::empty());
                assert(out@ + Seq::<Mirror>::empty() =~= out@);
            }
            (out, Some(ProgressEvent::TakingLatest { version: v }))
        },
    }
}

} // verus!
