use vstd::prelude::*;
use crate::order::{lex_lt, bytes_cmp, Rel, lemma_lex_lt_trichotomy, lemma_lex_lt_transitive};
use crate::proto::{FieldCondition, IndexMethod, JsonEntry, CondRepr, FieldRepr, cond_order};

verus! {

/// Whether one condition is satisfied by a field list: some field bears the
/// condition's name and, for a key/value condition, its expected value.
pub open spec fn cond_sat(c: CondRepr, fs: Seq<FieldRepr>) -> bool {
    exists|i: int| 0 <= i < fs.len() && #[trigger] fs[i].0 == c.1 && (c.0 ==> fs[i].1 == c.2)
}

/// Whether an entry's fields satisfy every condition of an index method.
pub open spec fn spec_matches(conds: Seq<CondRepr>, fs: Seq<FieldRepr>) -> bool {
    forall|k: int| 0 <= k < conds.len() ==> cond_sat(#[trigger] conds[k], fs)
}

/// Decides whether a structured entry belongs to the index identified by
/// `method`: a two-pointer merge over the two name-sorted lists, linear in
/// their combined length. The cursor into the fields only ever advances.
pub fn should_index(method: &IndexMethod, entry: &JsonEntry) -> (r: bool)
    requires
        method.wf(),
        entry.wf(),
    ensures
        r == spec_matches(method@, entry@),
{
    let ghost cv = method@;
    let ghost fv = entry@;
    let mut ci: usize = 0;
    let mut fi: usize = 0;
    while ci < method.conditions.len()
        invariant
            method.wf(),
            entry.wf(),
            cv == method@,
            fv == entry@,
            ci <= cv.len(),
            fi <= fv.len(),
            cv.len() == method.conditions@.len(),
            fv.len() == entry.0@.len(),
            forall|k: int| 0 <= k < ci ==> cond_sat(#[trigger] cv[k], fv),
            ci < cv.len() ==> forall|j: int| 0 <= j < fi ==> lex_lt(#[trigger] fv[j].0, cv[ci as int].1),
        decreases cv.len() - ci, fv.len() - fi,
    {
        let cond = &method.conditions[ci];
        if fi == entry.0.len() {
            // the remaining fields are exhausted: no field bears this name
            proof {
                assert forall|i: int| 0 <= i < fv.len() implies fv[i].0 != cv[ci as int].1 by {
                    lemma_lex_lt_trichotomy(fv[i].0, cv[ci as int].1);
                }
                assert(!cond_sat(cv[ci as int], fv));
            }
            return false;
        }
        match bytes_cmp(&entry.0[fi].0, cond.key()) {
            Rel::Less => {
                // this field sorts before the condition's name; it is
                // irrelevant to this and every later condition
                fi = fi + 1;
            },
            Rel::Greater => {
                // every later field sorts after this name too: it is absent
                proof {
                    assert forall|i: int| 0 <= i < fv.len() implies fv[i].0 != cv[ci as int].1 by {
                        if i < fi {
                            lemma_lex_lt_trichotomy(fv[i].0, cv[ci as int].1);
                        } else {
                            if i > fi {
                                lemma_lex_lt_transitive(cv[ci as int].1, fv[fi as int].0, fv[i].0);
                            }
                            lemma_lex_lt_trichotomy(cv[ci as int].1, fv[i].0);
                        }
                    }
                    assert(!cond_sat(cv[ci as int], fv));
                }
                return false;
            },
            Rel::Equal => {
                proof {
                    assert(cv[ci as int] == cond@);
                    assert(fv[fi as int] == (entry.0@[fi as int].0@, entry.0@[fi as int].1@));
                }
                match cond {
                    FieldCondition::HasKey(_) => {
                        proof {
                            assert(fv[fi as int].0 == cv[ci as int].1 && !cv[ci as int].0);
                            assert(cond_sat(cv[ci as int], fv));
                        }
                    },
                    FieldCondition::KeyValue(_, expected) => {
                        match bytes_cmp(&entry.0[fi].1, expected) {
                            Rel::Equal => {
                                proof {
                                    assert(fv[fi as int].0 == cv[ci as int].1
                                        && fv[fi as int].1 == cv[ci as int].2);
                                    assert(cond_sat(cv[ci as int], fv));
                                }
                            },
                            _ => {
                                // the single field of this name bears a
                                // different value
                                proof {
                                    assert forall|i: int|
                                        0 <= i < fv.len() && fv[i].0 == cv[ci as int].1
                                        implies i == fi by {
                                        if i < fi {
                                            lemma_lex_lt_trichotomy(fv[i].0, cv[ci as int].1);
                                        } else if i > fi {
                                            lemma_lex_lt_trichotomy(fv[fi as int].0, fv[i].0);
                                        }
                                    }
                                    assert(!cond_sat(cv[ci as int], fv));
                                }
                                return false;
                            },
                        }
                    },
                }
                // move to the next condition without consuming the field: a
                // later condition may test the same name again
                proof {
                    if ci + 1 < cv.len() {
                        assert(cond_order()(cv[ci as int], cv[ci + 1]));
                        assert forall|j: int| 0 <= j < fi
                            implies lex_lt(#[trigger] fv[j].0, cv[ci + 1].1) by {
                            lemma_lex_lt_transitive(fv[j].0, cv[ci as int].1, cv[ci + 1].1);
                        }
                    }
                }
                ci = ci + 1;
            },
        }
    }
    true
}

} // verus!
