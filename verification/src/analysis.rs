use vstd::prelude::*;
use crate::lexer::str_eq;
use crate::parser::{
    BinModel, RetModel, ReturnStmt, Stmt, StmtModel, lemma_models_push, lemma_stmt_models,
    ret_model, stmt_model, stmt_models,
};

verus! {

/// The `(bound name, left operand of the initializer)` pair of every `let`
/// binding of the sequence, in order. Only these pairs, and the function's
/// return expression, take part in the read count; control-flow bodies are
/// not analyzed (a documented limitation of the pass).
pub open spec fn let_pairs(stmts: Seq<StmtModel>) -> Seq<(Seq<char>, Seq<char>)>
    decreases stmts.len(),
{
    if stmts.len() == 0 {
        Seq::empty()
    } else {
        let_pairs(stmts.drop_last()) + (match stmts.last() {
            StmtModel::LetStmt { name, value } => seq![(name, value.lhs)],
            _ => Seq::empty(),
        })
    }
}

/// Whether some `let` binding of the function registers the name `k`.
pub open spec fn registered(pairs: Seq<(Seq<char>, Seq<char>)>, k: Seq<char>) -> bool {
    exists|j: int| 0 <= j < pairs.len() && pairs[j].0 == k
}

/// The read count of `k` over the bindings alone: a re-binding of an
/// already-known name counts as a use, and a binding whose initializer's
/// left operand names an already-known variable (or the binding's own name)
/// counts as a use of that operand.
pub open spec fn cnt(pairs: Seq<(Seq<char>, Seq<char>)>, k: Seq<char>) -> nat
    decreases pairs.len(),
{
    if pairs.len() == 0 {
        0
    } else {
        let prefix = pairs.drop_last();
        let p = pairs.last();
        cnt(prefix, k) + (if p.0 == k && registered(prefix, k) {
            1nat
        } else {
            0nat
        }) + (if p.1 == k && (registered(prefix, k) || p.0 == k) {
            1nat
        } else {
            0nat
        })
    }
}

/// The final read count of `k`: the count over the bindings, plus one if
/// the function's tail return is a flat expression whose left operand is a
/// known variable named `k`.
pub open spec fn final_cnt(stmts: Seq<StmtModel>, rt: Option<RetModel>, k: Seq<char>) -> nat {
    cnt(let_pairs(stmts), k) + (match rt {
        Option::Some(RetModel::Bin(b)) => {
            if b.lhs == k && registered(let_pairs(stmts), k) {
                1nat
            } else {
                0nat
            }
        },
        _ => 0,
    })
}

/// A `let` binding survives only when its final read count is positive;
/// every other statement survives unconditionally.
pub open spec fn keep_stmt(stmts: Seq<StmtModel>, rt: Option<RetModel>, s: StmtModel) -> bool {
    match s {
        StmtModel::LetStmt { name, value } => final_cnt(stmts, rt, name) > 0,
        _ => true,
    }
}

pub open spec fn dead_keep(
    rem: Seq<StmtModel>,
    all: Seq<StmtModel>,
    rt: Option<RetModel>,
) -> Seq<StmtModel>
    decreases rem.len(),
{
    if rem.len() == 0 {
        Seq::empty()
    } else {
        (if keep_stmt(all, rt, rem[0]) {
            seq![rem[0]]
        } else {
            Seq::empty()
        }) + dead_keep(rem.drop_first(), all, rt)
    }
}

/// The filtered copy of one function's statement sequence: the `let`
/// bindings that are read (or feed the return value) and every non-binding
/// statement, in their original order.
pub open spec fn dead_filter(stmts: Seq<StmtModel>, rt: Option<RetModel>) -> Seq<StmtModel> {
    dead_keep(stmts, stmts, rt)
}

pub open spec fn ret_ref_models(o: Option<&ReturnStmt>) -> Option<RetModel> {
    match o {
        Option::Some(r) => Option::Some(ret_model(*r)),
        Option::None => Option::None,
    }
}

pub open spec fn pairs_models(p: Seq<(String, String)>) -> Seq<(Seq<char>, Seq<char>)> {
    p.map_values(|q: (String, String)| (q.0@, q.1@))
}

proof fn lemma_models_subrange_push(v: Seq<Stmt>, i: int)
    requires
        0 <= i < v.len(),
    ensures
        stmt_models(v.subrange(0, i + 1)) == stmt_models(v.subrange(0, i)).push(stmt_model(v[i])),
{
    assert(v.subrange(0, i + 1).drop_last() =~= v.subrange(0, i));
    assert(v.subrange(0, i + 1).last() == v[i]);
}

proof fn lemma_let_pairs_push(mm: Seq<StmtModel>, x: StmtModel)
    ensures
        let_pairs(mm.push(x)) == let_pairs(mm) + (match x {
            StmtModel::LetStmt { name, value } => seq![(name, value.lhs)],
            _ => Seq::empty(),
        }),
{
    assert(mm.push(x).drop_last() =~= mm);
    assert(mm.push(x).last() == x);
}

proof fn lemma_registered_push(
    p: Seq<(Seq<char>, Seq<char>)>,
    x: (Seq<char>, Seq<char>),
    k: Seq<char>,
)
    ensures
        registered(p.push(x), k) == (registered(p, k) || x.0 == k),
{
    if registered(p, k) {
        let j = choose|j: int| 0 <= j < p.len() && p[j].0 == k;
        assert(p.push(x)[j].0 == k);
    }
    if x.0 == k {
        assert(p.push(x)[p.len() as int].0 == k);
    }
    if registered(p.push(x), k) && !(x.0 == k) {
        let j = choose|j: int| 0 <= j < p.push(x).len() && p.push(x)[j].0 == k;
        assert(p[j].0 == k);
    }
}

proof fn lemma_cnt_push(p: Seq<(Seq<char>, Seq<char>)>, x: (Seq<char>, Seq<char>), k: Seq<char>)
    ensures
        cnt(p.push(x), k) == cnt(p, k) + (if x.0 == k && registered(p, k) {
            1nat
        } else {
            0nat
        }) + (if x.1 == k && (registered(p, k) || x.0 == k) {
            1nat
        } else {
            0nat
        }),
{
    assert(p.push(x).drop_last() =~= p);
    assert(p.push(x).last() == x);
}

/// The read count of `k`, computed over the collected binding pairs, plus
/// whether `k` is registered at all.
fn count_uses(pairs: &Vec<(String, String)>, k: &String) -> (r: (u128, bool))
    ensures
        r.0 == cnt(pairs_models(pairs@), k@),
        r.1 == registered(pairs_models(pairs@), k@),
        r.0 <= 2 * pairs@.len(),
{
    let ghost pm = pairs_models(pairs@);
    let n = pairs.len();
    let mut c: u128 = 0;
    let mut seen = false;
    let mut i: usize = 0;
    while i < n
        invariant
            i <= n,
            n == pairs@.len(),
            pm == pairs_models(pairs@),
            c == cnt(pm.subrange(0, i as int), k@),
            seen == registered(pm.subrange(0, i as int), k@),
            c <= 2 * i,
        decreases n - i,
    {
        let ghost prefix = pm.subrange(0, i as int);
        let p = &pairs[i];
        let a_is = str_eq(p.0.as_str(), k.as_str());
        let b_is = str_eq(p.1.as_str(), k.as_str());
        proof {
            assert(pm[i as int] == (pairs@[i as int].0@, pairs@[i as int].1@));
            assert(pm.subrange(0, i + 1) =~= prefix.push(pm[i as int]));
            lemma_cnt_push(prefix, pm[i as int], k@);
            lemma_registered_push(prefix, pm[i as int], k@);
        }
        if a_is && seen {
            c += 1;
        }
        if b_is && (seen || a_is) {
            c += 1;
        }
        if a_is {
            seen = true;
        }
        i += 1;
    }
    proof {
        assert(pm.subrange(0, n as int) =~= pm);
    }
    (c, seen)
}

/// Removes the dead `let` bindings from one function's statement sequence.
/// A binding is dead when its final read count is zero: no later binding
/// re-binds or reads its name, and the function's return expression does
/// not name it. All other statements are kept, in order. Bindings inside
/// `while` and `if` bodies are not analyzed: the pass looks only at one
/// level of one function.
pub fn dead_code_pass(stmts: Vec<Stmt>, rt_val: Option<&ReturnStmt>) -> (r: Vec<Stmt>)
    ensures
        stmt_models(r@) == dead_filter(stmt_models(stmts@), ret_ref_models(rt_val)),
{
    let ghost all = stmt_models(stmts@);
    let ghost rt_m = ret_ref_models(rt_val);
    let n = stmts.len();

    let mut pairs: Vec<(String, String)> = Vec::new();
    let mut i: usize = 0;
    while i < n
        invariant
            i <= n,
            n == stmts@.len(),
            all == stmt_models(stmts@),
            pairs_models(pairs@) == let_pairs(stmt_models(stmts@.subrange(0, i as int))),
        decreases n - i,
    {
        let ghost prev = pairs@;
        let ghost prefix = stmt_models(stmts@.subrange(0, i as int));
        proof {
            lemma_models_subrange_push(stmts@, i as int);
            lemma_let_pairs_push(prefix, stmt_model(stmts@[i as int]));
        }
        match &stmts[i] {
            Stmt::LetStmt(l) => {
                proof {
                    assert(stmt_model(stmts@[i as int]) == StmtModel::LetStmt {
                        name: l.var_name@,
                        value: crate::parser::bin_model(l.value),
                    });
                }
                pairs.push((l.var_name.clone(), l.value.lhs.clone()));
                proof {
                    assert(pairs_models(pairs@) =~= pairs_models(prev).push(
                        (l.var_name@, l.value.lhs@),
                    ));
                    assert(pairs_models(pairs@) =~= let_pairs(
                        stmt_models(stmts@.subrange(0, i + 1)),
                    ));
                }
            },
            _ => {
                proof {
                    assert(let_pairs(prefix) + Seq::<(Seq<char>, Seq<char>)>::empty() =~= let_pairs(
                        prefix,
                    ));
                }
            },
        }
        i += 1;
    }
    proof {
        assert(stmts@.subrange(0, n as int) =~= stmts@);
    }

    let pairs_n = pairs.len();
    let mut remaining = stmts;
    let mut filtered: Vec<Stmt> = Vec::new();
    while remaining.len() > 0
        invariant
            rt_m == ret_ref_models(rt_val),
            pairs_models(pairs@) == let_pairs(all),
            pairs_n == pairs@.len(),
            dead_filter(all, rt_m) == stmt_models(filtered@) + dead_keep(
                stmt_models(remaining@),
                all,
                rt_m,
            ),
        decreases remaining@.len(),
    {
        let ghost rem_v0 = remaining@;
        let ghost rem0 = stmt_models(remaining@);
        let ghost prev_out = filtered@;
        let s = remaining.remove(0);
        proof {
            broadcast use lemma_stmt_models;

            assert(remaining@ =~= rem_v0.drop_first());
            assert(stmt_models(remaining@) =~= rem0.drop_first());
            assert(stmt_model(s) == rem0[0]);
        }
        let keep: bool = match &s {
            Stmt::LetStmt(l) => {
                let (c, is_reg) = count_uses(&pairs, &l.var_name);
                let mut extra: u128 = 0;
                match rt_val {
                    Option::Some(rr) => {
                        match rr {
                            ReturnStmt::BinaryStmtBody(rb) => {
                                if str_eq(rb.lhs.as_str(), l.var_name.as_str()) && is_reg {
                                    extra = 1;
                                }
                            },
                            _ => {},
                        }
                    },
                    Option::None => {},
                }
                proof {
                    assert(stmt_model(s) == StmtModel::LetStmt {
                        name: l.var_name@,
                        value: crate::parser::bin_model(l.value),
                    });
                    assert(c + extra == final_cnt(all, rt_m, l.var_name@));
                }
                c + extra > 0
            },
            _ => true,
        };
        proof {
            assert(keep == keep_stmt(all, rt_m, rem0[0]));
            assert(dead_keep(rem0, all, rt_m) == (if keep_stmt(all, rt_m, rem0[0]) {
                seq![rem0[0]]
            } else {
                Seq::<StmtModel>::empty()
            }) + dead_keep(rem0.drop_first(), all, rt_m));
        }
        if keep {
            proof {
                lemma_models_push(prev_out, s);
                assert((stmt_models(prev_out) + seq![stmt_model(s)]) + dead_keep(
                    stmt_models(remaining@),
                    all,
                    rt_m,
                ) =~= stmt_models(prev_out) + (seq![stmt_model(s)] + dead_keep(
                    stmt_models(remaining@),
                    all,
                    rt_m,
                )));
            }
            filtered.push(s);
        } else {
            proof {
                assert(Seq::<StmtModel>::empty() + dead_keep(stmt_models(remaining@), all, rt_m)
                    =~= dead_keep(stmt_models(remaining@), all, rt_m));
            }
        }
    }
    proof {
        assert(stmt_models(remaining@).len() == 0);
        assert(dead_keep(stmt_models(remaining@), all, rt_m) == Seq::<StmtModel>::empty());
        assert(stmt_models(filtered@) + Seq::<StmtModel>::empty() =~= stmt_models(filtered@));
    }
    filtered
}


proof fn lemma_dead_keep_membership(rem: Seq<StmtModel>, all: Seq<StmtModel>, rt: Option<RetModel>)
    ensures
        forall|j: int|
            0 <= j < dead_keep(rem, all, rt).len() ==> keep_stmt(
                all,
                rt,
                #[trigger] dead_keep(rem, all, rt)[j],
            ),
        forall|j2: int|
            0 <= j2 < rem.len() && keep_stmt(all, rt, #[trigger] rem[j2]) ==> exists|j: int|
                0 <= j < dead_keep(rem, all, rt).len() && dead_keep(rem, all, rt)[j] == rem[j2],
    decreases rem.len(),
{
    if rem.len() > 0 {
        lemma_dead_keep_membership(rem.drop_first(), all, rt);
        let h: Seq<StmtModel> = if keep_stmt(all, rt, rem[0]) {
            seq![rem[0]]
        } else {
            Seq::empty()
        };
        let t = dead_keep(rem.drop_first(), all, rt);
        assert(dead_keep(rem, all, rt) == h + t);
        assert forall|j: int| 0 <= j < dead_keep(rem, all, rt).len() implies keep_stmt(
            all,
            rt,
            #[trigger] dead_keep(rem, all, rt)[j],
        ) by {
            if j < h.len() {
                assert(dead_keep(rem, all, rt)[j] == rem[0]);
            } else {
                assert(dead_keep(rem, all, rt)[j] == t[j - h.len()]);
            }
        }
        assert forall|j2: int|
            0 <= j2 < rem.len() && keep_stmt(all, rt, #[trigger] rem[j2]) implies exists|j: int|
            0 <= j < dead_keep(rem, all, rt).len() && dead_keep(rem, all, rt)[j] == rem[j2] by {
            if j2 == 0 {
                assert(dead_keep(rem, all, rt)[0] == rem[0]);
            } else {
                assert(rem.drop_first()[j2 - 1] == rem[j2]);
                let j = choose|j: int|
                    0 <= j < t.len() && t[j] == rem.drop_first()[j2 - 1];
                assert(dead_keep(rem, all, rt)[h.len() + j] == t[j]);
            }
        }
    }
}

/// A `let` binding whose final read count is zero — no later binding
/// re-binds or reads its name and the tail return does not name it — is
/// absent from the filtered sequence; one whose count is positive is
/// present.
pub proof fn lemma_dead_binding_presence(
    stmts: Seq<StmtModel>,
    rt: Option<RetModel>,
    i: int,
    name: Seq<char>,
    value: BinModel,
)
    requires
        0 <= i < stmts.len(),
        stmts[i] == (StmtModel::LetStmt { name, value }),
    ensures
        final_cnt(stmts, rt, name) == 0 ==> forall|j: int|
            0 <= j < dead_filter(stmts, rt).len() ==> #[trigger] dead_filter(stmts, rt)[j]
                != stmts[i],
        final_cnt(stmts, rt, name) > 0 ==> exists|j: int|
            0 <= j < dead_filter(stmts, rt).len() && #[trigger] dead_filter(stmts, rt)[j]
                == stmts[i],
{
    lemma_dead_keep_membership(stmts, stmts, rt);
    if final_cnt(stmts, rt, name) == 0 {
        assert(!keep_stmt(stmts, rt, stmts[i]));
        assert forall|j: int| 0 <= j < dead_filter(stmts, rt).len() implies #[trigger] dead_filter(
            stmts,
            rt,
        )[j] != stmts[i] by {
            assert(keep_stmt(stmts, rt, dead_filter(stmts, rt)[j]));
        }
    } else {
        assert(keep_stmt(stmts, rt, stmts[i]));
        let dk = dead_keep(stmts, stmts, rt);
        assert(exists|j: int| 0 <= j < dk.len() && dk[j] == stmts[i]);
        let j = choose|j: int| 0 <= j < dk.len() && dk[j] == stmts[i];
        assert(dead_filter(stmts, rt)[j] == stmts[i]);
    }
}

/// Dead-code elimination is idempotent on already-filtered input: when a
/// run of the pass removes nothing, a further run returns the sequence
/// unchanged. (A run that does remove a binding may expose more dead
/// bindings, because the removed binding's initializer no longer counts as
/// a read of its operand.)
pub proof fn lemma_dead_code_idempotent(stmts: Seq<StmtModel>, rt: Option<RetModel>)
    requires
        dead_filter(stmts, rt) == stmts,
    ensures
        dead_filter(dead_filter(stmts, rt), rt) == dead_filter(stmts, rt),
{
}

} // verus!
