//! Contains logic to find the longest successful Mars mission: the filter
//! for completed missions bound for Mars and the tie-aware reduction to
//! the records of maximum duration.

use vstd::prelude::*;

use crate::parser::{parse_line, spec_parse_line, Mission, MissionView};
use crate::text::{split_char, split_str, str_eq, str_views};

verus! {

/// A record the analysis keeps: status exactly `"Completed"` and
/// destination exactly `"Mars"`.
pub open spec fn spec_is_match(m: MissionView) -> bool {
    m.status == "Completed"@ && m.destination == "Mars"@
}

/// Decides `spec_is_match`: case-sensitive, exact comparison on the
/// already-trimmed fields.
pub fn is_successful_mars_mission(m: &Mission) -> (r: bool)
    ensures
        r == spec_is_match(m@),
{
    str_eq(m.status.as_str(), "Completed") && str_eq(m.destination.as_str(), "Mars")
}

/// The views of a sequence of missions.
pub open spec fn mission_views(ms: Seq<Mission>) -> Seq<MissionView> {
    ms.map_values(|m: Mission| m@)
}

/// The records among `lines` that parse and pass the Mars/Completed
/// filter, in order of appearance.
pub open spec fn selected_missions(lines: Seq<Seq<char>>) -> Seq<MissionView>
    decreases lines.len(),
{
    if lines.len() == 0 {
        Seq::empty()
    } else {
        let rest = selected_missions(lines.drop_last());
        match spec_parse_line(lines.last()) {
            Some(m) => if spec_is_match(m) {
                rest.push(m)
            } else {
                rest
            },
            None => rest,
        }
    }
}

/// The largest duration among `ms`, and 0 when `ms` is empty.
pub open spec fn max_duration(ms: Seq<MissionView>) -> u64
    decreases ms.len(),
{
    if ms.len() == 0 {
        0
    } else {
        let rest = max_duration(ms.drop_last());
        if ms.last().duration > rest {
            ms.last().duration
        } else {
            rest
        }
    }
}

/// The members of `ms` whose duration is exactly `d`, in order of
/// appearance.
pub open spec fn winners(ms: Seq<MissionView>, d: u64) -> Seq<MissionView>
    decreases ms.len(),
{
    if ms.len() == 0 {
        Seq::empty()
    } else {
        let rest = winners(ms.drop_last(), d);
        if ms.last().duration == d {
            rest.push(ms.last())
        } else {
            rest
        }
    }
}

/// Returns every mission of the non-empty `missions` whose duration is
/// the maximum over all of them, in order of appearance.
pub fn longest_missions(missions: &Vec<Mission>) -> (r: Vec<Mission>)
    requires
        missions@.len() > 0,
    ensures
        mission_views(r@) == winners(
            mission_views(missions@),
            max_duration(mission_views(missions@)),
        ),
        r@.len() > 0,
{
    let ghost vs = mission_views(missions@);
    let mut max: u64 = missions[0].duration;
    proof {
        assert(vs.take(1).drop_last() =~= Seq::<MissionView>::empty());
        assert(max_duration(Seq::<MissionView>::empty()) == 0);
        assert(vs.take(1).last() == vs[0]);
        assert(vs[0] == missions@[0]@);
        assert(max == max_duration(vs.take(1)));
    }
    let mut i: usize = 1;
    while i < missions.len()
        invariant
            1 <= i <= missions@.len(),
            vs == mission_views(missions@),
            vs.len() == missions@.len(),
            max == max_duration(vs.take(i as int)),
        decreases missions@.len() - i,
    {
        proof {
            assert(vs.take(i as int + 1).drop_last() =~= vs.take(i as int));
            assert(vs.take(i as int + 1).last() == vs[i as int]);
            assert(vs[i as int] == missions@[i as int]@);
        }
        if missions[i].duration > max {
            max = missions[i].duration;
        }
        i = i + 1;
    }
    proof {
        assert(vs.take(missions@.len() as int) =~= vs);
    }
    let mut r: Vec<Mission> = Vec::new();
    proof {
        assert(vs.take(0) =~= Seq::<MissionView>::empty());
        assert(mission_views(r@) =~= winners(vs.take(0), max));
    }
    let mut j: usize = 0;
    while j < missions.len()
        invariant
            0 <= j <= missions@.len(),
            vs == mission_views(missions@),
            vs.len() == missions@.len(),
            max == max_duration(vs),
            mission_views(r@) == winners(vs.take(j as int), max),
        decreases missions@.len() - j,
    {
        proof {
            assert(vs.take(j as int + 1).drop_last() =~= vs.take(j as int));
            assert(vs.take(j as int + 1).last() == vs[j as int]);
            assert(vs[j as int] == missions@[j as int]@);
        }
        if missions[j].duration == max {
            let m = missions[j].clone();
            proof {
                assert(mission_views(r@.push(m)) =~= mission_views(r@).push(m@));
            }
            r.push(m);
        }
        j = j + 1;
    }
    proof {
        assert(vs.take(missions@.len() as int) =~= vs);
        lemma_reducer_sound(vs);
    }
    r
}

/// Reads the mission log held in `content`, parses each line, and returns
/// every longest successful Mars mission, or the no-match error when no
/// line passes the filter.
pub fn find_longest_successful_mars_mission(content: &str) -> (r: Result<Vec<Mission>, String>)
    ensures
        match r {
            Ok(v) => {
                let sel = selected_missions(split_char(content@, '\n'));
                &&& sel.len() > 0
                &&& v@.len() > 0
                &&& mission_views(v@) == winners(sel, max_duration(sel))
            },
            Err(e) => {
                &&& selected_missions(split_char(content@, '\n')).len() == 0
                &&& e@ == "No successful Mars missions found in the file."@
            },
        },
{
    let lines = split_str(content, '\n');
    let ghost lseq = split_char(content@, '\n');
    let mut missions: Vec<Mission> = Vec::new();
    proof {
        assert(lseq.take(0) =~= Seq::<Seq<char>>::empty());
        assert(mission_views(missions@) =~= selected_missions(lseq.take(0)));
    }
    let mut li: usize = 0;
    while li < lines.len()
        invariant
            0 <= li <= lines@.len(),
            str_views(lines@) == lseq,
            lines@.len() == lseq.len(),
            mission_views(missions@) == selected_missions(lseq.take(li as int)),
        decreases lines@.len() - li,
    {
        proof {
            assert(lseq.take(li as int + 1).drop_last() =~= lseq.take(li as int));
            assert(lseq.take(li as int + 1).last() == lseq[li as int]);
            assert(lines@[li as int]@ == lseq[li as int]);
        }
        let line = lines[li];
        match parse_line(line) {
            Some(m) => {
                if is_successful_mars_mission(&m) {
                    proof {
                        assert(mission_views(missions@.push(m)) =~= mission_views(
                            missions@,
                        ).push(m@));
                    }
                    missions.push(m);
                }
            },
            None => {},
        }
        li = li + 1;
    }
    proof {
        assert(lseq.take(lines@.len() as int) =~= lseq);
    }
    if missions.len() == 0 {
        return Err("No successful Mars missions found in the file.".to_owned());
    }
    let result = longest_missions(&missions);
    Ok(result)
}

/// No duration in `ms` exceeds `max_duration(ms)`.
pub proof fn lemma_max_duration_is_bound(ms: Seq<MissionView>)
    ensures
        forall|i: int| 0 <= i < ms.len() ==> (#[trigger] ms[i]).duration <= max_duration(ms),
    decreases ms.len(),
{
    if ms.len() > 0 {
        let t = ms.drop_last();
        lemma_max_duration_is_bound(t);
        assert forall|i: int| 0 <= i < ms.len() implies (#[trigger] ms[i]).duration
            <= max_duration(ms) by {
            if i < ms.len() - 1 {
                assert(ms[i] == t[i]);
                assert(t[i].duration <= max_duration(t));
                assert(max_duration(ms) >= max_duration(t));
            } else {
                assert(ms[i] == ms.last());
            }
        }
    }
}

/// Every member of `winners(ms, d)` has duration `d` and occurs in `ms`;
/// every member of `ms` with duration `d` occurs in `winners(ms, d)`.
pub proof fn lemma_winners_characterised(ms: Seq<MissionView>, d: u64)
    ensures
        forall|i: int|
            0 <= i < winners(ms, d).len() ==> (#[trigger] winners(ms, d)[i]).duration == d
                && ms.contains(winners(ms, d)[i]),
        forall|i: int| 0 <= i < ms.len() && (#[trigger] ms[i]).duration == d ==> winners(
            ms,
            d,
        ).contains(ms[i]),
    decreases ms.len(),
{
    if ms.len() > 0 {
        let t = ms.drop_last();
        lemma_winners_characterised(t, d);
        assert(forall|i: int| 0 <= i < t.len() ==> t[i] == (#[trigger] ms[i]));
        assert forall|i: int|
            0 <= i < winners(ms, d).len() implies (#[trigger] winners(ms, d)[i]).duration == d
            && ms.contains(winners(ms, d)[i]) by {
            if i < winners(t, d).len() {
                let w = winners(t, d)[i];
                let k = choose|k: int| 0 <= k < t.len() && t[k] == w;
                assert(ms[k] == w);
            } else {
                assert(winners(ms, d)[i] == ms.last());
                assert(ms[ms.len() - 1] == ms.last());
            }
        }
        assert forall|i: int|
            0 <= i < ms.len() && (#[trigger] ms[i]).duration == d implies winners(
            ms,
            d,
        ).contains(ms[i]) by {
            if i < ms.len() - 1 {
                assert(winners(t, d).contains(t[i]));
                let k = choose|k: int| 0 <= k < winners(t, d).len() && winners(t, d)[k] == t[i];
                assert(winners(ms, d)[k] == t[i]);
            } else {
                assert(winners(ms, d).last() == ms.last());
            }
        }
    }
}

/// The reduction of a non-empty set is a non-empty subset, every member
/// attains the maximum duration, and no record outside it has a duration
/// at or above that maximum.
pub proof fn lemma_reducer_sound(ms: Seq<MissionView>)
    requires
        ms.len() > 0,
    ensures
        winners(ms, max_duration(ms)).len() > 0,
        forall|i: int|
            0 <= i < winners(ms, max_duration(ms)).len() ==> (#[trigger] winners(
                ms,
                max_duration(ms),
            )[i]).duration == max_duration(ms) && ms.contains(winners(ms, max_duration(ms))[i]),
        forall|i: int|
            0 <= i < ms.len() && (#[trigger] ms[i]).duration >= max_duration(ms) ==> winners(
                ms,
                max_duration(ms),
            ).contains(ms[i]),
{
    let d = max_duration(ms);
    lemma_max_duration_is_bound(ms);
    lemma_winners_characterised(ms, d);
    lemma_max_duration_attained(ms);
    let k = choose|k: int| 0 <= k < ms.len() && (#[trigger] ms[k]).duration == d;
    assert(winners(ms, d).contains(ms[k]));
}

/// A non-empty sequence has a member whose duration is the maximum.
pub proof fn lemma_max_duration_attained(ms: Seq<MissionView>)
    requires
        ms.len() > 0,
    ensures
        exists|k: int| 0 <= k < ms.len() && (#[trigger] ms[k]).duration == max_duration(ms),
    decreases ms.len(),
{
    let t = ms.drop_last();
    if ms.last().duration > max_duration(t) {
        assert(ms[ms.len() - 1] == ms.last());
    } else if t.len() == 0 {
        assert(ms[0] == ms.last());
    } else {
        lemma_max_duration_attained(t);
        let k = choose|k: int| 0 <= k < t.len() && (#[trigger] t[k]).duration == max_duration(t);
        assert(ms[k] == t[k]);
    }
}

/// Reducing is idempotent: the winners all share the maximum duration, so
/// reducing them again returns them unchanged, security codes included.
pub proof fn lemma_reducer_idempotent(ms: Seq<MissionView>)
    requires
        ms.len() > 0,
    ensures
        max_duration(winners(ms, max_duration(ms))) == max_duration(ms),
        winners(winners(ms, max_duration(ms)), max_duration(ms)) == winners(ms, max_duration(ms)),
{
    let d = max_duration(ms);
    lemma_reducer_sound(ms);
    lemma_all_at_duration(winners(ms, d), d);
}

/// On a sequence whose members all have duration `d`, the maximum is `d`
/// (for a non-empty sequence) and the reduction returns every member.
pub proof fn lemma_all_at_duration(ms: Seq<MissionView>, d: u64)
    requires
        forall|i: int| 0 <= i < ms.len() ==> (#[trigger] ms[i]).duration == d,
    ensures
        ms.len() > 0 ==> max_duration(ms) == d,
        winners(ms, d) == ms,
    decreases ms.len(),
{
    if ms.len() == 0 {
        assert(winners(ms, d) =~= ms);
    } else {
        let t = ms.drop_last();
        assert(forall|i: int| 0 <= i < t.len() ==> (#[trigger] t[i]).duration == d) by {
            assert(forall|i: int| 0 <= i < t.len() ==> t[i] == (#[trigger] ms[i]));
        }
        lemma_all_at_duration(t, d);
        assert(ms[ms.len() - 1] == ms.last());
        assert(ms[ms.len() - 1].duration == d);
        assert(ms.last().duration == d);
        if t.len() == 0 {
            assert(max_duration(t) == 0);
            assert(max_duration(ms) == d);
        } else {
            assert(max_duration(t) == d);
            assert(max_duration(ms) == d);
        }
        assert(winners(ms, d) =~= ms);
    }
}

} // verus!
