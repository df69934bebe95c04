//! The argv lexer: turns the raw argument vector into flag and positional
//! tokens, resolving flag synonyms to canonical names, splitting
//! `--name=value`, consuming separate value tokens, and expanding
//! short-flag clusters. A `--` separator makes everything after it
//! positional.

use vstd::prelude::*;

use crate::grammar::{find_long, find_short, find_long_x, find_short_x, flags_model, FlagDecl,
    FlagDeclModel, MatchError};
use crate::text::{begins_with, find_char_from, sv, copy_range, find_char, seq_eq};

verus! {

/// One lexed argument token: a flag occurrence with its canonical name
/// and its attached value, or a positional token.
#[derive(Debug)]
pub enum Tok {
    Flag(Vec<char>, Option<Vec<char>>),
    Pos(Vec<char>),
}

/// The mathematical value of a `Tok`.
pub enum TokModel {
    Flag(Seq<char>, Option<Seq<char>>),
    Pos(Seq<char>),
}

impl Tok {
    pub open spec fn model(self) -> TokModel {
        match self {
            Tok::Flag(n, a) => TokModel::Flag(
                n@,
                match a {
                    Option::Some(v) => Option::Some(v@),
                    Option::None => Option::None,
                },
            ),
            Tok::Pos(v) => TokModel::Pos(v@),
        }
    }
}

/// The views of a vector of tokens.
pub open spec fn toks_model(v: Seq<Tok>) -> Seq<TokModel> {
    v.map_values(|t: Tok| t.model())
}

/// Every remaining argument as a positional token.
pub open spec fn all_pos(argv: Seq<Seq<char>>) -> Seq<TokModel>
    decreases argv.len(),
{
    if argv.len() == 0 {
        Seq::empty()
    } else {
        seq![TokModel::Pos(argv[0])] + all_pos(argv.drop_first())
    }
}

/// Puts `t` in front of the tokens of `r`, keeping an error.
pub open spec fn lex_cons(t: TokModel, r: Result<Seq<TokModel>, MatchError>) -> Result<
    Seq<TokModel>,
    MatchError,
> {
    match r {
        Result::Ok(s) => Result::Ok(seq![t] + s),
        Result::Err(e) => Result::Err(e),
    }
}

/// The tokens of `argv` under the declared flags, or the first lexing
/// error: unknown flag, missing value, or a value handed to a flag that
/// takes none.
pub open spec fn lex(flags: Seq<FlagDeclModel>, argv: Seq<Seq<char>>) -> Result<
    Seq<TokModel>,
    MatchError,
>
    decreases argv.len(), 0int, 0int,
{
    if argv.len() == 0 {
        Result::Ok(Seq::empty())
    } else {
        let t = argv[0];
        if t == seq!['-', '-'] {
            Result::Ok(all_pos(argv.drop_first()))
        } else if begins_with(t, seq!['-', '-']) {
            let eq = find_char_from(t, '=', 0);
            if eq >= 0 {
                let name = t.subrange(0, eq);
                let val = t.subrange(eq + 1, t.len() as int);
                let d = find_long(flags, name, 0);
                if d < 0 {
                    Result::Err(MatchError::UnknownFlag)
                } else if !flags[d].takes_arg {
                    Result::Err(MatchError::UnexpectedValue)
                } else {
                    lex_cons(
                        TokModel::Flag(flags[d].name, Option::Some(val)),
                        lex(flags, argv.drop_first()),
                    )
                }
            } else {
                let d = find_long(flags, t, 0);
                if d < 0 {
                    Result::Err(MatchError::UnknownFlag)
                } else if flags[d].takes_arg {
                    if argv.len() >= 2 {
                        lex_cons(
                            TokModel::Flag(flags[d].name, Option::Some(argv[1])),
                            lex(flags, argv.subrange(2, argv.len() as int)),
                        )
                    } else {
                        Result::Err(MatchError::MissingValue)
                    }
                } else {
                    lex_cons(
                        TokModel::Flag(flags[d].name, Option::None),
                        lex(flags, argv.drop_first()),
                    )
                }
            }
        } else if t.len() >= 2 && t[0] == '-' {
            lex_cluster(flags, t, 1, argv.drop_first())
        } else {
            lex_cons(TokModel::Pos(t), lex(flags, argv.drop_first()))
        }
    }
}

/// The tokens of the letters of cluster `t` from position `j` on,
/// followed by the tokens of `rest`. An argument-taking letter takes the
/// remainder of the cluster, or failing that the next argument.
pub open spec fn lex_cluster(
    flags: Seq<FlagDeclModel>,
    t: Seq<char>,
    j: int,
    rest: Seq<Seq<char>>,
) -> Result<Seq<TokModel>, MatchError>
    decreases rest.len(), 1int, t.len() - j,
{
    if j < 0 || j >= t.len() {
        lex(flags, rest)
    } else {
        let d = find_short(flags, t[j], 0);
        if d < 0 {
            Result::Err(MatchError::UnknownFlag)
        } else if flags[d].takes_arg {
            if j + 1 < t.len() {
                lex_cons(
                    TokModel::Flag(flags[d].name, Option::Some(t.subrange(j + 1, t.len() as int))),
                    lex(flags, rest),
                )
            } else if rest.len() >= 1 {
                lex_cons(
                    TokModel::Flag(flags[d].name, Option::Some(rest[0])),
                    lex(flags, rest.drop_first()),
                )
            } else {
                Result::Err(MatchError::MissingValue)
            }
        } else {
            lex_cons(TokModel::Flag(flags[d].name, Option::None), lex_cluster(flags, t, j + 1, rest))
        }
    }
}

/// Where `c` does not occur at or after `i`, no position holds it.
proof fn lemma_find_char_none(s: Seq<char>, c: char, i: int)
    requires
        0 <= i,
        find_char_from(s, c, i) == -1,
    ensures
        forall|j: int| i <= j < s.len() ==> s[j] != c,
    decreases s.len() - i,
{
    if i < s.len() {
        lemma_find_char_none(s, c, i + 1);
    }
}

/// The first occurrence of `c` at or after `i` is `k` when `s[k] == c`
/// and no earlier position from `i` holds it.
proof fn lemma_find_char_at(s: Seq<char>, c: char, i: int, k: int)
    requires
        0 <= i <= k < s.len(),
        s[k] == c,
        forall|j: int| i <= j < k ==> s[j] != c,
    ensures
        find_char_from(s, c, i) == k,
    decreases k - i,
{
    if i < k {
        lemma_find_char_at(s, c, i + 1, k);
    }
}

/// Law: for a flag declared to take an argument, the `--name=value` form
/// and the two-token `--name value` form lex to the same tokens, whatever
/// follows them.
pub proof fn lemma_flag_value_forms(
    flags: Seq<FlagDeclModel>,
    name: Seq<char>,
    val: Seq<char>,
    rest: Seq<Seq<char>>,
)
    requires
        begins_with(name, seq!['-', '-']),
        name.len() > 2,
        find_char_from(name, '=', 0) == -1,
        find_long(flags, name, 0) >= 0,
        flags[find_long(flags, name, 0)].takes_arg,
    ensures
        lex(flags, seq![name + seq!['='] + val] + rest) == lex(flags, seq![name, val] + rest),
{
    let a1 = seq![name + seq!['='] + val] + rest;
    let a2 = seq![name, val] + rest;
    let t = name + seq!['='] + val;
    crate::grammar::lemma_find_flag(flags, name, '-', 0);
    lemma_find_char_none(name, '=', 0);
    assert(t[name.len() as int] == '=');
    assert(forall|j: int| 0 <= j < name.len() ==> t[j] == name[j]);
    lemma_find_char_at(t, '=', 0, name.len() as int);
    assert(t != seq!['-', '-']) by {
        assert(t.len() >= 4);
    }
    assert(begins_with(t, seq!['-', '-'])) by {
        assert(t.subrange(0, 2) =~= name.subrange(0, 2));
    }
    assert(t.subrange(0, name.len() as int) =~= name);
    assert(t.subrange(name.len() as int + 1, t.len() as int) =~= val);
    assert(a1.drop_first() =~= rest);
    assert(name != seq!['-', '-']) by {
        assert(name.len() > 2);
    }
    assert(a2[0] == name && a2[1] == val);
    assert(a2.subrange(2, a2.len() as int) =~= rest);
    assert(lex(flags, a1) == lex(flags, a2));
}

/// Copies a whole character vector.
fn dup(v: &Vec<char>) -> (r: Vec<char>)
    ensures
        r@ == v@,
{
    let r = copy_range(v, 0, v.len());
    proof {
        assert(v@.subrange(0, v@.len() as int) =~= v@);
    }
    r
}

/// Mirrors `all_pos` on the suffix of `argv` from `k` on.
fn all_pos_x(argv: &Vec<Vec<char>>, k: usize) -> (r: Vec<Tok>)
    requires
        k <= argv@.len(),
    ensures
        toks_model(r@) == all_pos(sv(argv@).subrange(k as int, argv@.len() as int)),
    decreases argv@.len() - k,
{
    let n = argv.len();
    if k >= n {
        let r: Vec<Tok> = Vec::new();
        proof {
            assert(toks_model(r@) =~= all_pos(sv(argv@).subrange(k as int, n as int)));
        }
        r
    } else {
        let mut rest = all_pos_x(argv, k + 1);
        let ghost rest0 = toks_model(rest@);
        let mut r: Vec<Tok> = Vec::new();
        r.push(Tok::Pos(dup(&argv[k])));
        r.append(&mut rest);
        proof {
            let s = sv(argv@).subrange(k as int, n as int);
            assert(s[0] == argv@[k as int]@);
            assert(s.drop_first() =~= sv(argv@).subrange(k + 1, n as int));
            assert(toks_model(r@) =~= seq![TokModel::Pos(argv@[k as int]@)] + rest0);
        }
        r
    }
}

/// Mirrors `lex` on the suffix of `argv` from `i` on.
pub fn lex_x(flags: &Vec<FlagDecl>, argv: &Vec<Vec<char>>, i: usize) -> (r: Result<
    Vec<Tok>,
    MatchError,
>)
    requires
        i <= argv@.len(),
    ensures
        ({
            let m = lex(flags_model(flags@), sv(argv@).subrange(i as int, argv@.len() as int));
            match r {
                Result::Ok(v) => m == Result::<Seq<TokModel>, MatchError>::Ok(toks_model(v@)),
                Result::Err(e) => m == Result::<Seq<TokModel>, MatchError>::Err(e),
            }
        }),
    decreases argv@.len() - i, 0int, 0int,
{
    let n = argv.len();
    let ghost s = sv(argv@).subrange(i as int, n as int);
    if i >= n {
        let r: Vec<Tok> = Vec::new();
        proof {
            assert(toks_model(r@) =~= Seq::<TokModel>::empty());
        }
        return Result::Ok(r);
    }
    proof {
        assert(s[0] == argv@[i as int]@);
        assert(s.drop_first() =~= sv(argv@).subrange(i + 1, n as int));
    }
    let t = &argv[i];
    if t.len() == 2 && {
        let c0 = t[0];
        let c1 = t[1];
        c0 == '-' && c1 == '-'
    } {
        proof {
            assert(t@ =~= seq!['-', '-']);
        }
        return Result::Ok(all_pos_x(argv, i + 1));
    }
    proof {
        if t@.len() == 2 && t@[0] == '-' && t@[1] == '-' {
            assert(t@ =~= seq!['-', '-']);
        }
        assert(begins_with(t@, seq!['-', '-']) <==> (t@.len() >= 2 && t@[0] == '-' && t@[1]
            == '-')) by {
            if t@.len() >= 2 && t@[0] == '-' && t@[1] == '-' {
                assert(t@.subrange(0, 2) =~= seq!['-', '-']);
            }
            if begins_with(t@, seq!['-', '-']) {
                assert(t@.subrange(0, 2)[0] == '-' && t@.subrange(0, 2)[1] == '-');
            }
        }
    }
    if t.len() >= 2 && t[0] == '-' && t[1] == '-' {
        match find_char(t, '=', 0) {
            Some(e) => {
                proof {
                    crate::text::lemma_find_char_from(t@, '=', 0);
                }
                let name = copy_range(t, 0, e);
                let val = copy_range(t, e + 1, t.len());
                match find_long_x(flags, &name, 0) {
                    None => Result::Err(MatchError::UnknownFlag),
                    Some(d) => {
                        proof {
                            crate::grammar::lemma_find_flag(flags_model(flags@), name@, '-', 0);
                        }
                        if !flags[d].takes_arg {
                            Result::Err(MatchError::UnexpectedValue)
                        } else {
                            let tok = Tok::Flag(dup(&flags[d].name), Some(val));
                            match lex_x(flags, argv, i + 1) {
                                Result::Err(e) => Result::Err(e),
                                Result::Ok(mut rest) => {
                                    let ghost rest0 = toks_model(rest@);
                                    let mut out: Vec<Tok> = Vec::new();
                                    out.push(tok);
                                    out.append(&mut rest);
                                    proof {
                                        assert(toks_model(out@) =~= seq![
                                            TokModel::Flag(
                                                flags_model(flags@)[d as int].name,
                                                Option::Some(t@.subrange(e + 1, t@.len() as int)),
                                            ),
                                        ] + rest0);
                                    }
                                    Result::Ok(out)
                                },
                            }
                        }
                    },
                }
            },
            None => {
                match find_long_x(flags, t, 0) {
                    None => Result::Err(MatchError::UnknownFlag),
                    Some(d) => {
                        proof {
                            crate::grammar::lemma_find_flag(flags_model(flags@), t@, '-', 0);
                        }
                        if flags[d].takes_arg {
                            if i + 1 < n {
                                let tok = Tok::Flag(dup(&flags[d].name), Some(dup(&argv[i + 1])));
                                proof {
                                    assert(s[1] == argv@[i + 1]@);
                                    assert(s.subrange(2, s.len() as int) =~= sv(argv@).subrange(
                                        i + 2,
                                        n as int,
                                    ));
                                }
                                match lex_x(flags, argv, i + 2) {
                                    Result::Err(e) => Result::Err(e),
                                    Result::Ok(mut rest) => {
                                        let ghost rest0 = toks_model(rest@);
                                        let mut out: Vec<Tok> = Vec::new();
                                        out.push(tok);
                                        out.append(&mut rest);
                                        proof {
                                            assert(toks_model(out@) =~= seq![
                                                TokModel::Flag(
                                                    flags_model(flags@)[d as int].name,
                                                    Option::Some(argv@[i + 1]@),
                                                ),
                                            ] + rest0);
                                        }
                                        Result::Ok(out)
                                    },
                                }
                            } else {
                                Result::Err(MatchError::MissingValue)
                            }
                        } else {
                            let tok = Tok::Flag(dup(&flags[d].name), None);
                            match lex_x(flags, argv, i + 1) {
                                Result::Err(e) => Result::Err(e),
                                Result::Ok(mut rest) => {
                                    let ghost rest0 = toks_model(rest@);
                                    let mut out: Vec<Tok> = Vec::new();
                                    out.push(tok);
                                    out.append(&mut rest);
                                    proof {
                                        assert(toks_model(out@) =~= seq![
                                            TokModel::Flag(
                                                flags_model(flags@)[d as int].name,
                                                Option::None,
                                            ),
                                        ] + rest0);
                                    }
                                    Result::Ok(out)
                                },
                            }
                        }
                    },
                }
            },
        }
    } else if t.len() >= 2 && t[0] == '-' {
        lex_cluster_x(flags, argv, i, 1)
    } else {
        let tok = Tok::Pos(dup(t));
        match lex_x(flags, argv, i + 1) {
            Result::Err(e) => Result::Err(e),
            Result::Ok(mut rest) => {
                let ghost rest0 = toks_model(rest@);
                let mut out: Vec<Tok> = Vec::new();
                out.push(tok);
                out.append(&mut rest);
                proof {
                    assert(toks_model(out@) =~= seq![TokModel::Pos(argv@[i as int]@)] + rest0);
                }
                Result::Ok(out)
            },
        }
    }
}

/// Mirrors `lex_cluster` on the cluster `argv[i]` from letter `j` on,
/// with the rest of `argv` following.
fn lex_cluster_x(flags: &Vec<FlagDecl>, argv: &Vec<Vec<char>>, i: usize, j: usize) -> (r: Result<
    Vec<Tok>,
    MatchError,
>)
    requires
        i < argv@.len(),
    ensures
        ({
            let m = lex_cluster(
                flags_model(flags@),
                argv@[i as int]@,
                j as int,
                sv(argv@).subrange(i + 1, argv@.len() as int),
            );
            match r {
                Result::Ok(v) => m == Result::<Seq<TokModel>, MatchError>::Ok(toks_model(v@)),
                Result::Err(e) => m == Result::<Seq<TokModel>, MatchError>::Err(e),
            }
        }),
    decreases argv@.len() - i - 1, 1int, argv@[i as int]@.len() - j,
{
    let n = argv.len();
    let t = &argv[i];
    let ghost rest = sv(argv@).subrange(i + 1, n as int);
    if j >= t.len() {
        lex_x(flags, argv, i + 1)
    } else {
        let c = t[j];
        match find_short_x(flags, c, 0) {
            None => Result::Err(MatchError::UnknownFlag),
            Some(d) => {
                proof {
                    crate::grammar::lemma_find_flag(flags_model(flags@), seq![], c, 0);
                }
                if flags[d].takes_arg {
                    if j + 1 < t.len() {
                        let tok = Tok::Flag(dup(&flags[d].name), Some(copy_range(t, j + 1, t.len())));
                        match lex_x(flags, argv, i + 1) {
                            Result::Err(e) => Result::Err(e),
                            Result::Ok(mut more) => {
                                let ghost more0 = toks_model(more@);
                                let mut out: Vec<Tok> = Vec::new();
                                out.push(tok);
                                out.append(&mut more);
                                proof {
                                    assert(toks_model(out@) =~= seq![
                                        TokModel::Flag(
                                            flags_model(flags@)[d as int].name,
                                            Option::Some(
                                                argv@[i as int]@.subrange(
                                                    j + 1,
                                                    argv@[i as int]@.len() as int,
                                                ),
                                            ),
                                        ),
                                    ] + more0);
                                }
                                Result::Ok(out)
                            },
                        }
                    } else if i + 1 < n {
                        let tok = Tok::Flag(dup(&flags[d].name), Some(dup(&argv[i + 1])));
                        proof {
                            assert(rest[0] == argv@[i + 1]@);
                            assert(rest.drop_first() =~= sv(argv@).subrange(i + 2, n as int));
                        }
                        match lex_x(flags, argv, i + 2) {
                            Result::Err(e) => Result::Err(e),
                            Result::Ok(mut more) => {
                                let ghost more0 = toks_model(more@);
                                let mut out: Vec<Tok> = Vec::new();
                                out.push(tok);
                                out.append(&mut more);
                                proof {
                                    assert(toks_model(out@) =~= seq![
                                        TokModel::Flag(
                                            flags_model(flags@)[d as int].name,
                                            Option::Some(argv@[i + 1]@),
                                        ),
                                    ] + more0);
                                }
                                Result::Ok(out)
                            },
                        }
                    } else {
                        proof {
                            assert(rest.len() == 0);
                        }
                        Result::Err(MatchError::MissingValue)
                    }
                } else {
                    let tok = Tok::Flag(dup(&flags[d].name), None);
                    match lex_cluster_x(flags, argv, i, j + 1) {
                        Result::Err(e) => Result::Err(e),
                        Result::Ok(mut more) => {
                            let ghost more0 = toks_model(more@);
                            let mut out: Vec<Tok> = Vec::new();
                            out.push(tok);
                            out.append(&mut more);
                            proof {
                                assert(toks_model(out@) =~= seq![
                                    TokModel::Flag(
                                        flags_model(flags@)[d as int].name,
                                        Option::None,
                                    ),
                                ] + more0);
                            }
                            Result::Ok(out)
                        },
                    }
                }
            },
        }
    }
}

} // verus!
