//! The argv matcher and value binder: matches lexed tokens against the
//! compiled pattern tree with backtracking across alternation branches,
//! and folds the bindings of the matched atoms into the value map.

use vstd::prelude::*;

use crate::argv::{lex, lex_x, toks_model, Tok, TokModel};
use crate::grammar::{Grammar, GrammarModel, MatchError, SymbolModel, Symbol};
use crate::pattern::{models_of, lemma_models_of, Pattern, PatternModel};
use crate::text::{dup_chars, dup_opt, from_chars, seq_eq, strings_model, sv, to_chars};
use crate::value::{Value, ValueMap, ValueModel};

verus! {

/// One matched atom: the symbol's name and the value the occurrence
/// carried, if any.
pub type Bind = (Vec<char>, Option<Vec<char>>);

/// The mathematical value of one binding.
pub type BindModel = (Seq<char>, Option<Seq<char>>);

/// The views of a vector of bindings.
pub open spec fn binds_model(v: Seq<Bind>) -> Seq<BindModel> {
    v.map_values(
        |b: Bind|
            (
                b.0@,
                match b.1 {
                    Option::Some(x) => Option::Some(x@),
                    Option::None => Option::None,
                },
            ),
    )
}

/// The first position at or after `i` holding a flag token named `m`, or
/// `-1`.
pub open spec fn first_flag_idx(left: Seq<TokModel>, m: Seq<char>, i: int) -> int
    decreases left.len() - i,
{
    if i < 0 || i >= left.len() {
        -1
    } else if left[i] matches TokModel::Flag(n, _a) && n == m {
        i
    } else {
        first_flag_idx(left, m, i + 1)
    }
}

/// The first position at or after `i` holding a positional token, or `-1`.
pub open spec fn first_pos_idx(left: Seq<TokModel>, i: int) -> int
    decreases left.len() - i,
{
    if i < 0 || i >= left.len() {
        -1
    } else if left[i] matches TokModel::Pos(_v) {
        i
    } else {
        first_pos_idx(left, i + 1)
    }
}

/// Removes every flag token, binding each in order: what the `[options]`
/// shorthand consumes.
pub open spec fn consume_flags(left: Seq<TokModel>) -> (Seq<TokModel>, Seq<BindModel>)
    decreases left.len(),
{
    if left.len() == 0 {
        (Seq::<TokModel>::empty(), Seq::<BindModel>::empty())
    } else {
        let r = consume_flags(left.drop_first());
        match left[0] {
            TokModel::Flag(n, a) => (r.0, seq![(n, a)] + r.1),
            TokModel::Pos(_v) => (seq![left[0]] + r.0, r.1),
        }
    }
}

/// Matches one pattern against the remaining tokens: the tokens left over
/// and the bindings extended in encounter order, or `None` where the
/// pattern cannot match. Flag atoms match a flag token anywhere in the
/// remainder; commands and positionals match the first positional token.
pub open spec fn pm_match(p: PatternModel, left: Seq<TokModel>, binds: Seq<BindModel>) -> Option<
    (Seq<TokModel>, Seq<BindModel>),
>
    decreases left.len(), p, 0int, 0int,
{
    match p {
        PatternModel::Command(n) => {
            let i = first_pos_idx(left, 0);
            if i >= 0 {
                match left[i] {
                    TokModel::Pos(v) => {
                        if v == n {
                            Option::Some((left.remove(i), binds.push((n, Option::None))))
                        } else {
                            Option::None
                        }
                    },
                    TokModel::Flag(_f, _a) => Option::None,
                }
            } else {
                Option::None
            }
        },
        PatternModel::Positional(n) => {
            let i = first_pos_idx(left, 0);
            if i >= 0 {
                match left[i] {
                    TokModel::Pos(v) => Option::Some(
                        (left.remove(i), binds.push((n, Option::Some(v)))),
                    ),
                    TokModel::Flag(_f, _a) => Option::None,
                }
            } else {
                Option::None
            }
        },
        PatternModel::Flag(m, _t) => {
            let i = first_flag_idx(left, m, 0);
            if i >= 0 {
                match left[i] {
                    TokModel::Flag(n, a) => Option::Some((left.remove(i), binds.push((n, a)))),
                    TokModel::Pos(_v) => Option::None,
                }
            } else {
                Option::None
            }
        },
        PatternModel::AnyOptions => {
            let r = consume_flags(left);
            Option::Some((r.0, binds + r.1))
        },
        PatternModel::Sequence(cs) => match_children(cs, 0, left, binds, false),
        PatternModel::Optional(cs) => match_children(cs, 0, left, binds, true),
        PatternModel::Alternation(cs) => try_alts(cs, 0, left, binds),
        PatternModel::Repeated(q) => {
            match pm_match(*q, left, binds) {
                Option::None => Option::None,
                Option::Some((l2, b2)) => {
                    if l2.len() < left.len() {
                        rep_more(*q, l2, b2)
                    } else {
                        Option::Some((l2, b2))
                    }
                },
            }
        },
    }
}

/// Matches the children from `k` on, in order. With `opt`, a child that
/// cannot match is skipped; without it, the whole sequence fails.
pub open spec fn match_children(
    cs: Seq<PatternModel>,
    k: int,
    left: Seq<TokModel>,
    binds: Seq<BindModel>,
    opt: bool,
) -> Option<(Seq<TokModel>, Seq<BindModel>)>
    decreases left.len(), cs, 1int, cs.len() - k,
{
    if k < 0 || k >= cs.len() {
        Option::Some((left, binds))
    } else {
        match pm_match(cs[k], left, binds) {
            Option::None => {
                if opt {
                    match_children(cs, k + 1, left, binds, opt)
                } else {
                    Option::None
                }
            },
            Option::Some((l2, b2)) => {
                if l2.len() <= left.len() {
                    match_children(cs, k + 1, l2, b2, opt)
                } else {
                    Option::None
                }
            },
        }
    }
}

/// Tries each branch from `k` on; the first that matches wins.
pub open spec fn try_alts(
    cs: Seq<PatternModel>,
    k: int,
    left: Seq<TokModel>,
    binds: Seq<BindModel>,
) -> Option<(Seq<TokModel>, Seq<BindModel>)>
    decreases left.len(), cs, 1int, cs.len() - k,
{
    if k < 0 || k >= cs.len() {
        Option::None
    } else {
        match pm_match(cs[k], left, binds) {
            Option::Some(r) => Option::Some(r),
            Option::None => try_alts(cs, k + 1, left, binds),
        }
    }
}

/// Matches `q` again as long as it consumes tokens; stops at the first
/// attempt that fails or consumes nothing.
pub open spec fn rep_more(q: PatternModel, left: Seq<TokModel>, binds: Seq<BindModel>) -> Option<
    (Seq<TokModel>, Seq<BindModel>),
>
    decreases left.len(), q, 1int, 0int,
{
    match pm_match(q, left, binds) {
        Option::None => Option::Some((left, binds)),
        Option::Some((l2, b2)) => {
            if l2.len() < left.len() {
                rep_more(q, l2, b2)
            } else {
                Option::Some((l2, b2))
            }
        },
    }
}

/// The top-level alternatives of the compiled pattern.
pub open spec fn alts_of(p: PatternModel) -> Seq<PatternModel> {
    match p {
        PatternModel::Alternation(cs) => cs,
        _ => seq![p],
    }
}

/// The bindings of the first alternative from `k` on that matches the
/// whole token sequence, or `Unmatched`.
pub open spec fn match_all_toks(alts: Seq<PatternModel>, k: int, toks: Seq<TokModel>) -> Result<
    Seq<BindModel>,
    MatchError,
>
    decreases alts.len() - k,
{
    if k < 0 || k >= alts.len() {
        Result::Err(MatchError::Unmatched)
    } else {
        match pm_match(alts[k], toks, Seq::empty()) {
            Option::Some((l, b)) => {
                if l.len() == 0 {
                    Result::Ok(b)
                } else {
                    match_all_toks(alts, k + 1, toks)
                }
            },
            Option::None => match_all_toks(alts, k + 1, toks),
        }
    }
}

/// The values the bindings from `k` on carry for `name`, in encounter
/// order.
pub open spec fn occ_of(binds: Seq<BindModel>, name: Seq<char>, k: int) -> Seq<Option<Seq<char>>>
    decreases binds.len() - k,
{
    if k < 0 || k >= binds.len() {
        Seq::empty()
    } else {
        let rest = occ_of(binds, name, k + 1);
        if binds[k].0 == name {
            seq![binds[k].1] + rest
        } else {
            rest
        }
    }
}

/// The values from `k` on that are present, in order.
pub open spec fn somes_of(occ: Seq<Option<Seq<char>>>, k: int) -> Seq<Seq<char>>
    decreases occ.len() - k,
{
    if k < 0 || k >= occ.len() {
        Seq::empty()
    } else {
        let rest = somes_of(occ, k + 1);
        match occ[k] {
            Option::Some(v) => seq![v] + rest,
            Option::None => rest,
        }
    }
}

/// The value bound to one declared symbol given the match's bindings:
/// a repeatable valued atom accumulates a `List`, a repeatable bare atom
/// a `Counted`; a single valued atom is `Plain`, with its declared
/// default where it went unmatched; a single bare atom is a `Switch`.
pub open spec fn value_of_sym(sym: SymbolModel, binds: Seq<BindModel>) -> ValueModel {
    let occ = occ_of(binds, sym.name, 0);
    if sym.repeated && sym.valued {
        ValueModel::List(somes_of(occ, 0))
    } else if sym.repeated {
        ValueModel::Counted(occ.len() as int)
    } else if sym.valued {
        if occ.len() > 0 {
            ValueModel::Plain(occ[0])
        } else {
            ValueModel::Plain(sym.default)
        }
    } else {
        ValueModel::Switch(occ.len() > 0)
    }
}

/// The map from every declared symbol to its bound or default value.
pub open spec fn bound_map(syms: Seq<SymbolModel>, binds: Seq<BindModel>) -> Map<
    Seq<char>,
    ValueModel,
>
    decreases syms.len(),
{
    if syms.len() == 0 {
        Map::empty()
    } else {
        bound_map(syms.drop_last(), binds).insert(
            syms.last().name,
            value_of_sym(syms.last(), binds),
        )
    }
}

/// The views of a vector of optional character vectors.
pub open spec fn opts_model(v: Seq<Option<Vec<char>>>) -> Seq<Option<Seq<char>>> {
    v.map_values(
        |o: Option<Vec<char>>|
            match o {
                Option::Some(x) => Option::Some(x@),
                Option::None => Option::None,
            },
    )
}

/// `first_flag_idx` returns `-1` or a position holding a flag token of
/// the name sought; `first_pos_idx` likewise a positional token.
pub proof fn lemma_first_idx(left: Seq<TokModel>, m: Seq<char>, i: int)
    requires
        0 <= i,
    ensures
        first_flag_idx(left, m, i) == -1 || (i <= first_flag_idx(left, m, i) < left.len() && (
        left[first_flag_idx(left, m, i)] matches TokModel::Flag(n, _a) && n == m)),
        first_pos_idx(left, i) == -1 || (i <= first_pos_idx(left, i) < left.len() && (
        left[first_pos_idx(left, i)] matches TokModel::Pos(_v))),
    decreases left.len() - i,
{
    if i < left.len() {
        lemma_first_idx(left, m, i + 1);
    }
}

/// Copies one token.
fn dup_tok(t: &Tok) -> (r: Tok)
    ensures
        r.model() == t.model(),
{
    match t {
        Tok::Flag(n, a) => Tok::Flag(dup_chars(n), dup_opt(a)),
        Tok::Pos(v) => Tok::Pos(dup_chars(v)),
    }
}

/// Copies a token vector.
fn dup_toks(v: &Vec<Tok>) -> (r: Vec<Tok>)
    ensures
        toks_model(r@) == toks_model(v@),
{
    let mut r: Vec<Tok> = Vec::new();
    let mut k: usize = 0;
    while k < v.len()
        invariant
            0 <= k <= v@.len(),
            r@.len() == k,
            forall|j: int| 0 <= j < k ==> r@[j].model() == v@[j].model(),
        decreases v@.len() - k,
    {
        r.push(dup_tok(&v[k]));
        k = k + 1;
    }
    proof {
        assert(toks_model(r@) =~= toks_model(v@));
    }
    r
}

/// Copies a binding vector.
fn dup_binds(v: &Vec<Bind>) -> (r: Vec<Bind>)
    ensures
        binds_model(r@) == binds_model(v@),
{
    let mut r: Vec<Bind> = Vec::new();
    let mut k: usize = 0;
    while k < v.len()
        invariant
            0 <= k <= v@.len(),
            r@.len() == k,
            forall|j: int| 0 <= j < k ==> (#[trigger] r@[j]).0@ == v@[j].0@ && match r@[j].1 {
                Option::Some(x) => v@[j].1 matches Option::Some(y) && x@ == y@,
                Option::None => v@[j].1 is None,
            },
        decreases v@.len() - k,
    {
        let b = &v[k];
        r.push((dup_chars(&b.0), dup_opt(&b.1)));
        k = k + 1;
    }
    proof {
        assert(binds_model(r@) =~= binds_model(v@));
    }
    r
}

/// Mirrors `first_flag_idx` on a vector.
fn first_flag_idx_x(left: &Vec<Tok>, m: &Vec<char>, from: usize) -> (r: Option<usize>)
    ensures
        match r {
            Option::Some(j) => first_flag_idx(toks_model(left@), m@, from as int) == j,
            Option::None => first_flag_idx(toks_model(left@), m@, from as int) == -1,
        },
    decreases left@.len() - from,
{
    if from >= left.len() {
        None
    } else {
        let hit = match &left[from] {
            Tok::Flag(n, _a) => seq_eq(n, m),
            Tok::Pos(_v) => false,
        };
        if hit {
            Some(from)
        } else {
            first_flag_idx_x(left, m, from + 1)
        }
    }
}

/// Mirrors `first_pos_idx` on a vector.
fn first_pos_idx_x(left: &Vec<Tok>, from: usize) -> (r: Option<usize>)
    ensures
        match r {
            Option::Some(j) => first_pos_idx(toks_model(left@), from as int) == j,
            Option::None => first_pos_idx(toks_model(left@), from as int) == -1,
        },
    decreases left@.len() - from,
{
    if from >= left.len() {
        None
    } else {
        let hit = match &left[from] {
            Tok::Pos(_v) => true,
            Tok::Flag(_n, _a) => false,
        };
        if hit {
            Some(from)
        } else {
            first_pos_idx_x(left, from + 1)
        }
    }
}

/// Mirrors `consume_flags` on a vector, from `k` on.
fn consume_flags_x(left: &Vec<Tok>, k: usize) -> (r: (Vec<Tok>, Vec<Bind>))
    requires
        k <= left@.len(),
    ensures
        ({
            let m = consume_flags(toks_model(left@).subrange(k as int, left@.len() as int));
            toks_model(r.0@) == m.0 && binds_model(r.1@) == m.1
        }),
    decreases left@.len() - k,
{
    let n = left.len();
    if k >= n {
        let r: (Vec<Tok>, Vec<Bind>) = (Vec::new(), Vec::new());
        proof {
            assert(toks_model(r.0@) =~= Seq::<TokModel>::empty());
            assert(binds_model(r.1@) =~= Seq::<BindModel>::empty());
        }
        r
    } else {
        let rest = consume_flags_x(left, k + 1);
        let ghost s = toks_model(left@).subrange(k as int, n as int);
        proof {
            assert(s[0] == left@[k as int].model());
            assert(s.drop_first() =~= toks_model(left@).subrange(k + 1, n as int));
        }
        match &left[k] {
            Tok::Flag(fname, farg) => {
                let mut bs: Vec<Bind> = Vec::new();
                bs.push((dup_chars(fname), dup_opt(farg)));
                let mut rest1 = rest.1;
                let ghost rb = binds_model(rest1@);
                bs.append(&mut rest1);
                proof {
                    assert(binds_model(bs@) =~= seq![
                        (
                            left@[k as int].model()->Flag_0,
                            left@[k as int].model()->Flag_1,
                        ),
                    ] + rb);
                }
                (rest.0, bs)
            },
            Tok::Pos(pv) => {
                let mut ts: Vec<Tok> = Vec::new();
                ts.push(Tok::Pos(dup_chars(pv)));
                let mut rest0 = rest.0;
                let ghost rt = toks_model(rest0@);
                ts.append(&mut rest0);
                proof {
                    assert(toks_model(ts@) =~= seq![left@[k as int].model()] + rt);
                }
                (ts, rest.1)
            },
        }
    }
}

/// Mirrors `pm_match` on vectors.
fn pm_match_x(p: &Pattern, left: &Vec<Tok>, binds: &Vec<Bind>) -> (r: Option<(Vec<Tok>, Vec<Bind>)>)
    ensures
        ({
            let m = pm_match(p.model(), toks_model(left@), binds_model(binds@));
            match r {
                Option::Some(lb) => m == Option::Some((toks_model(lb.0@), binds_model(lb.1@))),
                Option::None => m is None,
            }
        }),
    decreases toks_model(left@).len(), p.model(), 0int, 0int,
{
    let ghost tl = toks_model(left@);
    let ghost bm = binds_model(binds@);
    match p {
        Pattern::Command(n) => {
            match first_pos_idx_x(left, 0) {
                Option::None => None,
                Option::Some(i) => {
                    proof {
                        lemma_first_idx(tl, n@, 0);
                    }
                    match &left[i] {
                        Tok::Pos(v) => {
                            if seq_eq(v, n) {
                                let mut l2 = dup_toks(left);
                                l2.remove(i);
                                let mut b2 = dup_binds(binds);
                                b2.push((dup_chars(n), None));
                                proof {
                                    assert(toks_model(l2@) =~= tl.remove(i as int));
                                    assert(binds_model(b2@) =~= bm.push(
                                        (n@, Option::<Seq<char>>::None),
                                    ));
                                }
                                Some((l2, b2))
                            } else {
                                None
                            }
                        },
                        Tok::Flag(_f, _a) => {
                            proof {
                                assert(false);
                            }
                            None
                        },
                    }
                },
            }
        },
        Pattern::Positional(n) => {
            match first_pos_idx_x(left, 0) {
                Option::None => None,
                Option::Some(i) => {
                    proof {
                        lemma_first_idx(tl, n@, 0);
                    }
                    match &left[i] {
                        Tok::Pos(v) => {
                            let mut l2 = dup_toks(left);
                            l2.remove(i);
                            let mut b2 = dup_binds(binds);
                            b2.push((dup_chars(n), Some(dup_chars(v))));
                            proof {
                                assert(toks_model(l2@) =~= tl.remove(i as int));
                                assert(binds_model(b2@) =~= bm.push((n@, Option::Some(v@))));
                            }
                            Some((l2, b2))
                        },
                        Tok::Flag(_f, _a) => {
                            proof {
                                assert(false);
                            }
                            None
                        },
                    }
                },
            }
        },
        Pattern::Flag(m, _t) => {
            match first_flag_idx_x(left, m, 0) {
                Option::None => None,
                Option::Some(i) => {
                    proof {
                        lemma_first_idx(tl, m@, 0);
                    }
                    match &left[i] {
                        Tok::Flag(n, a) => {
                            let mut l2 = dup_toks(left);
                            l2.remove(i);
                            let mut b2 = dup_binds(binds);
                            b2.push((dup_chars(n), dup_opt(a)));
                            proof {
                                assert(toks_model(l2@) =~= tl.remove(i as int));
                                assert(binds_model(b2@) =~= bm.push(
                                    (
                                        tl[i as int]->Flag_0,
                                        tl[i as int]->Flag_1,
                                    ),
                                ));
                            }
                            Some((l2, b2))
                        },
                        Tok::Pos(_v) => {
                            proof {
                                assert(false);
                            }
                            None
                        },
                    }
                },
            }
        },
        Pattern::AnyOptions => {
            let r = consume_flags_x(left, 0);
            let ghost cb = binds_model(r.1@);
            let mut b2 = dup_binds(binds);
            let mut r1 = r.1;
            b2.append(&mut r1);
            proof {
                assert(toks_model(left@).subrange(0, left@.len() as int) =~= tl);
                assert(binds_model(b2@) =~= bm + cb);
            }
            Some((r.0, b2))
        },
        Pattern::Sequence(cs) => match_children_x(cs, 0, left, binds, false),
        Pattern::Optional(cs) => match_children_x(cs, 0, left, binds, true),
        Pattern::Alternation(cs) => try_alts_x(cs, 0, left, binds),
        Pattern::Repeated(bx) => {
            let inner: &Pattern = bx;
            match pm_match_x(inner, left, binds) {
                Option::None => None,
                Option::Some((l2, b2)) => {
                    if l2.len() < left.len() {
                        rep_more_x(inner, &l2, &b2)
                    } else {
                        Some((l2, b2))
                    }
                },
            }
        },
    }
}

/// Mirrors `match_children` on vectors.
fn match_children_x(cs: &Vec<Pattern>, k: usize, left: &Vec<Tok>, binds: &Vec<Bind>, opt: bool) -> (r:
    Option<(Vec<Tok>, Vec<Bind>)>)
    ensures
        ({
            let m = match_children(
                models_of(cs@),
                k as int,
                toks_model(left@),
                binds_model(binds@),
                opt,
            );
            match r {
                Option::Some(lb) => m == Option::Some((toks_model(lb.0@), binds_model(lb.1@))),
                Option::None => m is None,
            }
        }),
    decreases toks_model(left@).len(), models_of(cs@), 1int, cs@.len() - k,
{
    proof {
        lemma_models_of(cs@);
    }
    if k >= cs.len() {
        Some((dup_toks(left), dup_binds(binds)))
    } else {
        match pm_match_x(&cs[k], left, binds) {
            Option::None => {
                if opt {
                    match_children_x(cs, k + 1, left, binds, opt)
                } else {
                    None
                }
            },
            Option::Some((l2, b2)) => {
                if l2.len() <= left.len() {
                    match_children_x(cs, k + 1, &l2, &b2, opt)
                } else {
                    None
                }
            },
        }
    }
}

/// Mirrors `try_alts` on vectors.
fn try_alts_x(cs: &Vec<Pattern>, k: usize, left: &Vec<Tok>, binds: &Vec<Bind>) -> (r: Option<
    (Vec<Tok>, Vec<Bind>),
>)
    ensures
        ({
            let m = try_alts(models_of(cs@), k as int, toks_model(left@), binds_model(binds@));
            match r {
                Option::Some(lb) => m == Option::Some((toks_model(lb.0@), binds_model(lb.1@))),
                Option::None => m is None,
            }
        }),
    decreases toks_model(left@).len(), models_of(cs@), 1int, cs@.len() - k,
{
    proof {
        lemma_models_of(cs@);
    }
    if k >= cs.len() {
        None
    } else {
        match pm_match_x(&cs[k], left, binds) {
            Option::Some(r) => Some(r),
            Option::None => try_alts_x(cs, k + 1, left, binds),
        }
    }
}

/// Mirrors `rep_more` on vectors.
fn rep_more_x(q: &Pattern, left: &Vec<Tok>, binds: &Vec<Bind>) -> (r: Option<(Vec<Tok>, Vec<Bind>)>)
    ensures
        ({
            let m = rep_more(q.model(), toks_model(left@), binds_model(binds@));
            match r {
                Option::Some(lb) => m == Option::Some((toks_model(lb.0@), binds_model(lb.1@))),
                Option::None => m is None,
            }
        }),
    decreases toks_model(left@).len(), q.model(), 1int, 0int,
{
    match pm_match_x(q, left, binds) {
        Option::None => Some((dup_toks(left), dup_binds(binds))),
        Option::Some((l2, b2)) => {
            if l2.len() < left.len() {
                rep_more_x(q, &l2, &b2)
            } else {
                Some((l2, b2))
            }
        },
    }
}

/// Mirrors `match_all_toks` on vectors.
fn match_all_x(alts: &Vec<Pattern>, k: usize, toks: &Vec<Tok>) -> (r: Result<Vec<Bind>, MatchError>)
    ensures
        ({
            let m = match_all_toks(models_of(alts@), k as int, toks_model(toks@));
            match r {
                Result::Ok(b) => m == Result::<Seq<BindModel>, MatchError>::Ok(binds_model(b@)),
                Result::Err(e) => m == Result::<Seq<BindModel>, MatchError>::Err(e),
            }
        }),
    decreases alts@.len() - k,
{
    proof {
        lemma_models_of(alts@);
    }
    if k >= alts.len() {
        Result::Err(MatchError::Unmatched)
    } else {
        let empty: Vec<Bind> = Vec::new();
        proof {
            assert(binds_model(empty@) =~= Seq::<BindModel>::empty());
        }
        match pm_match_x(&alts[k], toks, &empty) {
            Option::Some((l, b)) => {
                if l.len() == 0 {
                    proof {
                        assert(toks_model(l@).len() == 0);
                    }
                    Result::Ok(b)
                } else {
                    match_all_x(alts, k + 1, toks)
                }
            },
            Option::None => match_all_x(alts, k + 1, toks),
        }
    }
}

/// Matches the lexed tokens against the compiled pattern: the bindings of
/// the first alternative that matches them all, or `Unmatched`.
fn match_toks(p: &Pattern, toks: &Vec<Tok>) -> (r: Result<Vec<Bind>, MatchError>)
    ensures
        ({
            let m = match_all_toks(alts_of(p.model()), 0, toks_model(toks@));
            match r {
                Result::Ok(b) => m == Result::<Seq<BindModel>, MatchError>::Ok(binds_model(b@)),
                Result::Err(e) => m == Result::<Seq<BindModel>, MatchError>::Err(e),
            }
        }),
{
    match p {
        Pattern::Alternation(cs) => match_all_x(cs, 0, toks),
        _ => {
            let empty: Vec<Bind> = Vec::new();
            proof {
                reveal_with_fuel(match_all_toks, 2);
                assert(binds_model(empty@) =~= Seq::<BindModel>::empty());
                assert(alts_of(p.model()) == seq![p.model()]);
                assert(seq![p.model()][0] == p.model());
            }
            match pm_match_x(p, toks, &empty) {
                Option::Some((l, b)) => {
                    if l.len() == 0 {
                        proof {
                            assert(toks_model(l@).len() == 0);
                        }
                        Result::Ok(b)
                    } else {
                        Result::Err(MatchError::Unmatched)
                    }
                },
                Option::None => Result::Err(MatchError::Unmatched),
            }
        },
    }
}

/// Mirrors `occ_of` on vectors.
fn occ_of_x(binds: &Vec<Bind>, name: &Vec<char>, k: usize) -> (r: Vec<Option<Vec<char>>>)
    ensures
        opts_model(r@) == occ_of(binds_model(binds@), name@, k as int),
    decreases binds@.len() - k,
{
    if k >= binds.len() {
        let r: Vec<Option<Vec<char>>> = Vec::new();
        proof {
            assert(opts_model(r@) =~= Seq::<Option<Seq<char>>>::empty());
        }
        r
    } else {
        let mut rest = occ_of_x(binds, name, k + 1);
        let ghost r0 = opts_model(rest@);
        if seq_eq(&binds[k].0, name) {
            let mut r: Vec<Option<Vec<char>>> = Vec::new();
            r.push(dup_opt(&binds[k].1));
            r.append(&mut rest);
            proof {
                assert(opts_model(r@) =~= seq![binds_model(binds@)[k as int].1] + r0);
            }
            r
        } else {
            rest
        }
    }
}

/// Mirrors `somes_of` on vectors.
fn somes_of_x(occ: &Vec<Option<Vec<char>>>, k: usize) -> (r: Vec<Vec<char>>)
    ensures
        sv(r@) == somes_of(opts_model(occ@), k as int),
    decreases occ@.len() - k,
{
    if k >= occ.len() {
        let r: Vec<Vec<char>> = Vec::new();
        proof {
            assert(sv(r@) =~= Seq::<Seq<char>>::empty());
        }
        r
    } else {
        let mut rest = somes_of_x(occ, k + 1);
        let ghost r0 = sv(rest@);
        match &occ[k] {
            Option::Some(v) => {
                let mut r: Vec<Vec<char>> = Vec::new();
                r.push(dup_chars(v));
                r.append(&mut rest);
                proof {
                    assert(opts_model(occ@)[k as int] == Option::Some(occ@[k as int]->Some_0@));
                    assert(sv(r@) =~= seq![occ@[k as int]->Some_0@] + r0);
                }
                r
            },
            Option::None => rest,
        }
    }
}

/// Mirrors `value_of_sym` on vectors.
fn value_of_sym_x(sym: &Symbol, binds: &Vec<Bind>) -> (v: Value)
    ensures
        v.model() == value_of_sym(sym.model(), binds_model(binds@)),
{
    let occ = occ_of_x(binds, &sym.name, 0);
    if sym.repeated && sym.valued {
        let vs = somes_of_x(&occ, 0);
        let mut out: Vec<String> = Vec::new();
        let mut k: usize = 0;
        while k < vs.len()
            invariant
                0 <= k <= vs@.len(),
                out@.len() == k,
                forall|j: int| 0 <= j < k ==> (#[trigger] out@[j])@ == vs@[j]@,
            decreases vs@.len() - k,
        {
            out.push(from_chars(&vs[k]));
            k = k + 1;
        }
        proof {
            assert(strings_model(out@) =~= sv(vs@));
        }
        Value::List(out)
    } else if sym.repeated {
        proof {
            assert(occ@.len() == opts_model(occ@).len());
        }
        Value::Counted(occ.len() as u64)
    } else if sym.valued {
        if occ.len() > 0 {
            match &occ[0] {
                Option::Some(v) => Value::Plain(Some(from_chars(v))),
                Option::None => {
                    proof {
                        assert(opts_model(occ@)[0] is None);
                    }
                    Value::Plain(None)
                },
            }
        } else {
            match &sym.default {
                Option::Some(d) => Value::Plain(Some(from_chars(d))),
                Option::None => Value::Plain(None),
            }
        }
    } else {
        Value::Switch(occ.len() > 0)
    }
}

/// Builds the value map: every declared symbol, in declaration order,
/// bound by `value_of_sym`.
fn bind_values_x(syms: &Vec<Symbol>, binds: &Vec<Bind>) -> (vm: ValueMap)
    ensures
        vm.model() == bound_map(crate::grammar::symbols_model(syms@), binds_model(binds@)),
{
    let ghost sm = crate::grammar::symbols_model(syms@);
    let mut vm = ValueMap::new();
    let mut k: usize = 0;
    while k < syms.len()
        invariant
            0 <= k <= syms@.len(),
            sm == crate::grammar::symbols_model(syms@),
            vm.model() == bound_map(sm.subrange(0, k as int), binds_model(binds@)),
        decreases syms@.len() - k,
    {
        let name = from_chars(&syms[k].name);
        let val = value_of_sym_x(&syms[k], binds);
        vm.put(name, val);
        proof {
            assert(sm.subrange(0, k + 1 as int).drop_last() =~= sm.subrange(0, k as int));
            assert(sm.subrange(0, k + 1 as int).last() == sm[k as int]);
        }
        k = k + 1;
    }
    proof {
        assert(sm.subrange(0, sm.len() as int) =~= sm);
    }
    vm
}

impl Grammar {
    /// Matches a concrete argument vector (without the program name)
    /// against this compiled usage text: the value map binding every
    /// declared symbol, or the first matching error.
    pub fn parse_argv(&self, argv: &Vec<String>) -> (r: Result<ValueMap, MatchError>)
        ensures
            ({
                let m = match_argv(self.model(), strings_model(argv@));
                match r {
                    Result::Ok(vm) => m == Result::<Map<Seq<char>, ValueModel>, MatchError>::Ok(
                        vm.model(),
                    ),
                    Result::Err(e) => m == Result::<Map<Seq<char>, ValueModel>, MatchError>::Err(e),
                }
            }),
    {
        let mut av: Vec<Vec<char>> = Vec::new();
        let mut k: usize = 0;
        while k < argv.len()
            invariant
                0 <= k <= argv@.len(),
                av@.len() == k,
                forall|j: int| 0 <= j < k ==> (#[trigger] av@[j])@ == argv@[j]@,
            decreases argv@.len() - k,
        {
            av.push(to_chars(argv[k].as_str()));
            k = k + 1;
        }
        proof {
            assert(sv(av@) =~= strings_model(argv@));
            assert(sv(av@).subrange(0, av@.len() as int) =~= sv(av@));
        }
        match lex_x(&self.flags, &av, 0) {
            Result::Err(e) => Result::Err(e),
            Result::Ok(toks) => {
                match match_toks(&self.pattern, &toks) {
                    Result::Err(e) => Result::Err(e),
                    Result::Ok(binds) => Result::Ok(bind_values_x(&self.symbols, &binds)),
                }
            },
        }
    }
}

/// The bindings from `k` on name the symbol exactly when its occurrence
/// list is not empty.
pub proof fn lemma_occ_exists(binds: Seq<BindModel>, name: Seq<char>, k: int)
    requires
        0 <= k <= binds.len(),
    ensures
        occ_of(binds, name, k).len() > 0 <==> exists|i: int|
            k <= i < binds.len() && (#[trigger] binds[i]).0 == name,
    decreases binds.len() - k,
{
    if k < binds.len() {
        lemma_occ_exists(binds, name, k + 1);
        if binds[k].0 == name {
            assert(k <= k < binds.len() && binds[k].0 == name);
        }
    }
}

/// Law: a flag (or command) that takes no argument and is not repeatable
/// is bound `Switch(true)` exactly when the match bound it at least once,
/// and `Switch(false)` otherwise.
pub proof fn lemma_switch_law(sym: SymbolModel, binds: Seq<BindModel>)
    requires
        !sym.valued,
        !sym.repeated,
    ensures
        value_of_sym(sym, binds) == ValueModel::Switch(
            exists|i: int| 0 <= i < binds.len() && (#[trigger] binds[i]).0 == sym.name,
        ),
{
    lemma_occ_exists(binds, sym.name, 0);
}

/// Law: a repeatable atom that takes no argument is bound `Counted(N)`,
/// where `N` is the number of bindings that name it.
pub proof fn lemma_counted_law(sym: SymbolModel, binds: Seq<BindModel>)
    requires
        sym.repeated,
        !sym.valued,
    ensures
        value_of_sym(sym, binds) == ValueModel::Counted(occ_of(binds, sym.name, 0).len() as int),
{
}

/// Every occurrence of the symbol carries a value when every binding that
/// names it does.
pub proof fn lemma_occ_some(binds: Seq<BindModel>, name: Seq<char>, k: int)
    requires
        0 <= k <= binds.len(),
        forall|i: int|
            k <= i < binds.len() && (#[trigger] binds[i]).0 == name ==> binds[i].1 is Some,
    ensures
        forall|j: int|
            0 <= j < occ_of(binds, name, k).len() ==> (#[trigger] occ_of(binds, name, k)[j])
                is Some,
    decreases binds.len() - k,
{
    if k < binds.len() {
        lemma_occ_some(binds, name, k + 1);
    }
}

/// `somes_of` keeps every present value, in order.
pub proof fn lemma_somes_len(occ: Seq<Option<Seq<char>>>, k: int)
    requires
        0 <= k <= occ.len(),
        forall|j: int| k <= j < occ.len() ==> (#[trigger] occ[j]) is Some,
    ensures
        somes_of(occ, k).len() == occ.len() - k,
        forall|j: int|
            k <= j < occ.len() ==> #[trigger] somes_of(occ, k)[j - k] == occ[j]->0,
    decreases occ.len() - k,
{
    if k < occ.len() {
        lemma_somes_len(occ, k + 1);
        assert(occ[k] is Some);
        assert(somes_of(occ, k) == seq![occ[k]->0] + somes_of(occ, k + 1));
        assert forall|j: int|
            k <= j < occ.len() implies #[trigger] somes_of(occ, k)[j - k] == occ[j]->0 by {
            if j == k {
                assert(somes_of(occ, k)[0] == occ[k]->0);
            } else {
                assert(somes_of(occ, k)[j - k] == somes_of(occ, k + 1)[j - (k + 1)]);
            }
        }
    }
}

/// Law: a repeatable atom that carries values and was bound `N` times is
/// bound `List` of length `N`, holding those values in encounter order.
pub proof fn lemma_list_law(sym: SymbolModel, binds: Seq<BindModel>)
    requires
        sym.repeated,
        sym.valued,
        forall|i: int|
            0 <= i < binds.len() && (#[trigger] binds[i]).0 == sym.name ==> binds[i].1 is Some,
    ensures
        ({
            let occ = occ_of(binds, sym.name, 0);
            &&& value_of_sym(sym, binds) == ValueModel::List(somes_of(occ, 0))
            &&& somes_of(occ, 0).len() == occ.len()
            &&& forall|j: int| 0 <= j < occ.len() ==> #[trigger] somes_of(occ, 0)[j] == occ[j]->0
        }),
{
    let occ = occ_of(binds, sym.name, 0);
    lemma_occ_some(binds, sym.name, 0);
    lemma_somes_len(occ, 0);
    assert forall|j: int| 0 <= j < occ.len() implies #[trigger] somes_of(occ, 0)[j] == occ[j]->0 by {
        assert(somes_of(occ, 0)[j - 0] == occ[j]->0);
    }
}

/// The value map binds each declared symbol to exactly `value_of_sym` of
/// the match's bindings: this carries the switch, counter and list laws
/// into the map that a caller reads.
pub proof fn lemma_bound_map_at(syms: Seq<SymbolModel>, binds: Seq<BindModel>, i: int)
    requires
        0 <= i < syms.len(),
        forall|j: int| i < j < syms.len() ==> (#[trigger] syms[j]).name != syms[i].name,
    ensures
        bound_map(syms, binds).contains_key(syms[i].name),
        bound_map(syms, binds)[syms[i].name] == value_of_sym(syms[i], binds),
    decreases syms.len(),
{
    if i < syms.len() - 1 {
        assert(forall|j: int|
            i < j < syms.drop_last().len() ==> (#[trigger] syms.drop_last()[j]).name != syms.drop_last()[
                i
            ].name);
        lemma_bound_map_at(syms.drop_last(), binds, i);
    }
}

/// The whole matching pipeline: lex the argument vector, match it against
/// the first fully matching alternative, and bind every declared symbol.
pub open spec fn match_argv(g: GrammarModel, argv: Seq<Seq<char>>) -> Result<
    Map<Seq<char>, ValueModel>,
    MatchError,
> {
    match lex(g.flags, argv) {
        Result::Err(e) => Result::Err(e),
        Result::Ok(toks) => match match_all_toks(alts_of(g.pattern), 0, toks) {
            Result::Err(e) => Result::Err(e),
            Result::Ok(binds) => Result::Ok(bound_map(g.symbols, binds)),
        },
    }
}

} // verus!
