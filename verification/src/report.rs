//! The report assembler: merges the two extractors' results with the
//! caller-supplied scalars, sorting unit records by duration descending and
//! turning a failed extraction into an empty contribution.
use vstd::prelude::*;

use crate::duration::{dur_lt, lemma_dur_lt_asymmetric, lemma_dur_lt_transitive, opt_dur_lt_exec,
    unit_dur_or_zero};
use crate::records::{lints_view, units_view, AuthToken, DurationV, LintRecord, LintV,
    ParseFailure, ReportPayload, Status, UnitRecord, UnitV};

verus! {

/// The sort key of a unit record: its duration, a missing one counting as
/// zero.
pub open spec fn sort_key(u: UnitV) -> DurationV {
    unit_dur_or_zero(u.duration)
}

/// Sorted by duration, largest first: no record's key is smaller than a
/// later record's key.
pub open spec fn sorted_desc(s: Seq<UnitV>) -> bool {
    forall|i: int, j: int|
        0 <= i < j < s.len() ==> !dur_lt(sort_key(#[trigger] s[i]), sort_key(#[trigger] s[j]))
}

/// Inserting an element anywhere adds exactly it to the multiset of a
/// sequence.
proof fn lemma_insert_to_multiset(s: Seq<UnitV>, i: int, x: UnitV)
    requires
        0 <= i <= s.len(),
    ensures
        s.insert(i, x).to_multiset() == s.to_multiset().insert(x),
{
    broadcast use vstd::seq_lib::group_to_multiset_ensures;

    let t = s.insert(i, x);
    assert(t.remove(i) =~= s);
    assert(t[i] == x);
    assert(t.remove(i).to_multiset() =~= t.to_multiset().remove(x));
    assert(t.contains(x));
    assert(t.to_multiset().count(x) > 0);
    assert(t.to_multiset() =~= s.to_multiset().insert(x));
}

/// Sort unit records by duration, largest first, keeping exactly the same
/// records.
pub fn sort_units(units: Vec<UnitRecord>) -> (r: Vec<UnitRecord>)
    ensures
        sorted_desc(units_view(r@)),
        units_view(r@).to_multiset() == units_view(units@).to_multiset(),
{
    broadcast use vstd::seq_lib::group_to_multiset_ensures;

    let ghost orig = units_view(units@);
    let mut rest = units;
    let mut out: Vec<UnitRecord> = Vec::new();
    proof {
        assert(units_view(out@) =~= Seq::<UnitV>::empty());
        assert(units_view(out@).to_multiset().add(units_view(rest@).to_multiset())
            =~= orig.to_multiset());
    }
    while rest.len() > 0
        invariant
            sorted_desc(units_view(out@)),
            units_view(out@).to_multiset().add(units_view(rest@).to_multiset())
                == orig.to_multiset(),
        decreases rest@.len(),
    {
        broadcast use vstd::seq_lib::group_to_multiset_ensures;

        let ghost rest_old = units_view(rest@);
        let x = rest.remove(0);
        proof {
            assert(units_view(rest@) =~= rest_old.remove(0));
            assert(rest_old[0] == x@);
            assert(rest_old.remove(0).to_multiset() =~= rest_old.to_multiset().remove(x@));
        }
        let ghost before = units_view(out@);
        let mut p: usize = 0;
        let mut ins = false;
        while p < out.len() && !ins
            invariant
                0 <= p <= out@.len(),
                before == units_view(out@),
                forall|k: int| 0 <= k < p ==> !dur_lt(sort_key(#[trigger] before[k]), sort_key(x@)),
                ins ==> p < out@.len() && dur_lt(sort_key(before[p as int]), sort_key(x@)),
            decreases out@.len() - p, (if ins { 0int } else { 1int }),
        {
            if opt_dur_lt_exec(&out[p].duration, &x.duration) {
                ins = true;
            } else {
                p += 1;
            }
        }
        proof {
            if p < out@.len() {
                assert(dur_lt(sort_key(before[p as int]), sort_key(x@)));
            }
        }
        let ghost xv = x@;
        out.insert(p, x);
        proof {
            let now = units_view(out@);
            assert(now =~= before.insert(p as int, xv));
            lemma_insert_to_multiset(before, p as int, xv);
            assert(now.to_multiset().add(units_view(rest@).to_multiset()) =~= orig.to_multiset());
            assert forall|i: int, j: int| 0 <= i < j < now.len() implies !dur_lt(
                sort_key(#[trigger] now[i]),
                sort_key(#[trigger] now[j]),
            ) by {
                if j < p {
                    assert(now[i] == before[i]);
                    assert(now[j] == before[j]);
                    assert(!dur_lt(sort_key(before[i]), sort_key(before[j])));
                } else if i < p && j == p {
                    assert(now[i] == before[i]);
                    assert(now[j] == xv);
                } else if i < p && j > p {
                    assert(now[i] == before[i]);
                    assert(now[j] == before[j - 1]);
                    assert(!dur_lt(sort_key(before[i]), sort_key(before[j - 1])));
                } else if i == p && j > p {
                    assert(now[i] == xv);
                    assert(now[j] == before[j - 1]);
                    assert(dur_lt(sort_key(before[p as int]), sort_key(xv)));
                    if dur_lt(sort_key(xv), sort_key(before[j - 1])) {
                        lemma_dur_lt_transitive(
                            sort_key(before[p as int]),
                            sort_key(xv),
                            sort_key(before[j - 1]),
                        );
                        if j - 1 == p {
                            lemma_dur_lt_asymmetric(sort_key(before[p as int]), sort_key(xv));
                        } else {
                            assert(!dur_lt(sort_key(before[p as int]), sort_key(before[j - 1])));
                        }
                    }
                } else {
                    assert(i > p);
                    assert(now[i] == before[i - 1]);
                    assert(now[j] == before[j - 1]);
                    assert(!dur_lt(sort_key(before[i - 1]), sort_key(before[j - 1])));
                }
            }
        }
    }
    proof {
        assert(units_view(rest@).to_multiset().len() == 0);
        assert(units_view(out@).to_multiset().add(units_view(rest@).to_multiset())
            =~= units_view(out@).to_multiset());
    }
    out
}

/// Build the payload: a failed extraction contributes nothing, unit records
/// come out sorted by duration descending, and both sequences are always
/// present, possibly empty.
pub fn assemble_report(
    status: Status,
    build: Vec<u8>,
    token: Vec<u8>,
    lints: Result<Vec<LintRecord>, ParseFailure>,
    units: Result<Vec<UnitRecord>, ParseFailure>,
) -> (r: ReportPayload)
    ensures
        r@.build == build@,
        r@.status == status,
        r@.token == token@,
        r@.lint == Some(
            match lints {
                Ok(v) => lints_view(v@),
                Err(_) => Seq::<LintV>::empty(),
            },
        ),
        r@.unit is Some,
        sorted_desc(r@.unit.unwrap()),
        r@.unit.unwrap().to_multiset() == (match units {
            Ok(v) => units_view(v@),
            Err(_) => Seq::<UnitV>::empty(),
        }).to_multiset(),
{
    let lint_vec: Vec<LintRecord> = match lints {
        Ok(v) => v,
        Err(_) => Vec::new(),
    };
    let unit_vec: Vec<UnitRecord> = match units {
        Ok(v) => v,
        Err(_) => Vec::new(),
    };
    let sorted = sort_units(unit_vec);
    proof {
        assert(lints_view(Seq::<LintRecord>::empty()) =~= Seq::<LintV>::empty());
        assert(units_view(Seq::<UnitRecord>::empty()) =~= Seq::<UnitV>::empty());
    }
    ReportPayload { build, status, unit: Some(sorted), lint: Some(lint_vec), auth: AuthToken { token } }
}

/// Extraction is a pure function of the artifact content: two runs over equal
/// bytes yield equal collections, whatever else differs between the runs.
pub proof fn lemma_extraction_idempotent(c1: Seq<u8>, c2: Seq<u8>, b1: Seq<u8>, b2: Seq<u8>, w1: Seq<u8>, w2: Seq<u8>)
    requires
        c1 == c2,
        b1 == b2,
        w1 == w2,
    ensures
        crate::unit::units_of_lines(crate::unit::split_lines(c1)) == crate::unit::units_of_lines(
            crate::unit::split_lines(c2),
        ),
        crate::lint::decoded_diag_stream(b1) == crate::lint::decoded_diag_stream(b2),
        crate::lint::decoded_diag_stream(b1) is Some ==> crate::lint::lints_of(
            crate::lint::decoded_diag_stream(b1).unwrap(),
            w1,
        ) == crate::lint::lints_of(crate::lint::decoded_diag_stream(b2).unwrap(), w2),
{
}

} // verus!
