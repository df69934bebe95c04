//! The usage-grammar compiler: turns raw usage text into a compiled
//! `Grammar` — the pattern tree of every `Usage:` alternative, the flag
//! declarations of the options section and of the patterns themselves,
//! and the table of declared symbols.

use vstd::prelude::*;

use crate::grammar::{find_long, find_long_x, find_short, find_short_x, flags_model, FlagDecl,
    FlagDeclModel, Grammar, Symbol, SymbolModel, symbols_model, UsageError};
use crate::pattern::{lemma_models_of, models_of, Pattern, PatternModel};
use crate::text::{begins_with, begins_with_x, copy_range, dup_chars, dup_opt, find_char,
    find_char_from, find_ci, find_ci_from, is_blank, lemma_find_char_from, seq_eq, split_on,
    split_on_x, sv, to_chars, trim, trim_x, words, words_of};

verus! {

/// The index of the first line at or after `i` holding a `Usage:`
/// heading, compared case-insensitively, or `-1`.
pub open spec fn usage_line_idx(lines: Seq<Seq<char>>, i: int) -> int
    decreases lines.len() - i,
{
    if i < 0 || i >= lines.len() {
        -1
    } else if find_ci_from(lines[i], "usage:"@, 0) >= 0 {
        i
    } else {
        usage_line_idx(lines, i + 1)
    }
}

/// The lines from `i` on up to the first blank one: the indented
/// continuation lines of a `Usage:` heading.
pub open spec fn take_nonblank(lines: Seq<Seq<char>>, i: int) -> Seq<Seq<char>>
    decreases lines.len() - i,
{
    if i < 0 || i >= lines.len() {
        Seq::empty()
    } else if trim(lines[i]).len() == 0 {
        Seq::empty()
    } else {
        seq![lines[i]] + take_nonblank(lines, i + 1)
    }
}

/// The usage pattern source lines: the remainder of the heading line
/// where it is not blank, and the non-blank lines below it.
pub open spec fn usage_srcs(lines: Seq<Seq<char>>, u: int) -> Seq<Seq<char>>
    recommends
        0 <= u < lines.len(),
{
    let line = lines[u];
    let pos = find_ci_from(line, "usage:"@, 0);
    let rest0 = if 0 <= pos && pos + 6 <= line.len() {
        line.subrange(pos + 6, line.len() as int)
    } else {
        Seq::empty()
    };
    let head: Seq<Seq<char>> = if trim(rest0).len() > 0 {
        seq![rest0]
    } else {
        Seq::empty()
    };
    head + take_nonblank(lines, u + 1)
}

/// The option description entries from line `i` on: a trimmed line
/// starting with `-` opens an entry, following non-blank lines continue
/// it, a blank line closes it.
pub open spec fn option_entries(lines: Seq<Seq<char>>, i: int, cur: Option<Seq<char>>) -> Seq<
    Seq<char>,
>
    decreases lines.len() - i,
{
    let done: Seq<Seq<char>> = match cur {
        Option::Some(e) => seq![e],
        Option::None => Seq::empty(),
    };
    if i < 0 || i >= lines.len() {
        done
    } else {
        let t = trim(lines[i]);
        if t.len() > 0 && t[0] == '-' {
            done + option_entries(lines, i + 1, Option::Some(t))
        } else if t.len() > 0 && cur is Some {
            option_entries(lines, i + 1, Option::Some(cur->0 + seq![' '] + t))
        } else {
            done + option_entries(lines, i + 1, Option::None)
        }
    }
}

/// `w` with one trailing comma removed.
pub open spec fn strip_comma(w: Seq<char>) -> Seq<char> {
    if w.len() > 0 && w.last() == ',' {
        w.drop_last()
    } else {
        w
    }
}

/// All characters from `j` on are ASCII capital letters.
pub open spec fn all_caps(w: Seq<char>, j: int) -> bool
    decreases w.len() - j,
{
    if j < 0 || j >= w.len() {
        true
    } else {
        65 <= w[j] as u32 <= 90 && all_caps(w, j + 1)
    }
}

/// An argument placeholder after a flag: `<arg>` or an all-capitals word
/// of at least two letters (so that a description opening with `A` or
/// `I` is not read as one).
pub open spec fn is_argspec(w: Seq<char>) -> bool {
    (w.len() >= 2 && w[0] == '<' && w.last() == '>') || (w.len() >= 2 && all_caps(w, 0))
}

/// Scans the leading words of one option entry: its short letter, its
/// long name, and whether a flag takes an argument. Scanning stops at the
/// first word that is neither a flag nor an argument placeholder.
pub open spec fn scan_opt_words(
    ws: Seq<Seq<char>>,
    k: int,
    short: Option<char>,
    long: Option<Seq<char>>,
    takes: bool,
) -> (Option<char>, Option<Seq<char>>, bool)
    decreases ws.len() - k,
{
    if k < 0 || k >= ws.len() {
        (short, long, takes)
    } else {
        let w = strip_comma(ws[k]);
        if begins_with(w, seq!['-', '-']) && w.len() > 2 {
            let eq = find_char_from(w, '=', 0);
            let name = if eq >= 0 {
                w.subrange(0, eq)
            } else {
                w
            };
            let long2 = if long is Some {
                long
            } else {
                Option::Some(name)
            };
            scan_opt_words(ws, k + 1, short, long2, takes || eq >= 0)
        } else if w.len() >= 2 && w[0] == '-' {
            let short2 = if short is Some {
                short
            } else {
                Option::Some(w[1])
            };
            scan_opt_words(ws, k + 1, short2, long, takes)
        } else if is_argspec(w) {
            scan_opt_words(ws, k + 1, short, long, true)
        } else {
            (short, long, takes)
        }
    }
}

/// The declared default of one option entry: the text between
/// `(default:` and the next `)`, trimmed, where present.
pub open spec fn default_of(e: Seq<char>) -> Option<Seq<char>> {
    let p = find_ci_from(e, "(default:"@, 0);
    if p >= 0 {
        let q = find_char_from(e, ')', p);
        if q >= p + 9 {
            Option::Some(trim(e.subrange(p + 9, q)))
        } else {
            Option::None
        }
    } else {
        Option::None
    }
}

/// One option entry as a flag declaration, or `BadOptionLine` where the
/// entry declares no flag at all.
pub open spec fn parse_opt_entry(e: Seq<char>) -> Result<FlagDeclModel, UsageError> {
    let r = scan_opt_words(words_of(e), 0, Option::None, Option::None, false);
    match r.1 {
        Option::Some(l) => Result::Ok(
            FlagDeclModel {
                name: l,
                short: r.0,
                long: Option::Some(l),
                takes_arg: r.2,
                default: default_of(e),
            },
        ),
        Option::None => match r.0 {
            Option::Some(c) => Result::Ok(
                FlagDeclModel {
                    name: seq!['-', c],
                    short: Option::Some(c),
                    long: Option::None,
                    takes_arg: r.2,
                    default: default_of(e),
                },
            ),
            Option::None => Result::Err(UsageError::BadOptionLine),
        },
    }
}

/// Folds the option entries into a declaration list, refusing a flag
/// declared twice.
pub open spec fn build_decls(
    entries: Seq<Seq<char>>,
    k: int,
    acc: Seq<FlagDeclModel>,
) -> Result<Seq<FlagDeclModel>, UsageError>
    decreases entries.len() - k,
{
    if k < 0 || k >= entries.len() {
        Result::Ok(acc)
    } else {
        match parse_opt_entry(entries[k]) {
            Result::Err(e) => Result::Err(e),
            Result::Ok(d) => {
                let dup_long = d.long matches Option::Some(l) && find_long(acc, l, 0) >= 0;
                let dup_short = d.short matches Option::Some(c) && find_short(acc, c, 0) >= 0;
                if dup_long || dup_short {
                    Result::Err(UsageError::DuplicateFlag)
                } else {
                    build_decls(entries, k + 1, acc.push(d))
                }
            },
        }
    }
}

/// A character that ends a pattern word.
pub open spec fn is_special(c: char) -> bool {
    c == '[' || c == ']' || c == '(' || c == ')' || c == '|'
}

/// The end of the pattern word starting before `i`: the first position at
/// or after `i` holding a blank, a group character, or an ellipsis.
pub open spec fn word_end(s: Seq<char>, i: int) -> int
    decreases s.len() - i,
{
    if i < 0 || i >= s.len() {
        s.len() as int
    } else if is_blank(s[i]) || is_special(s[i]) {
        i
    } else if s[i] == '.' && i + 3 <= s.len() && s[i + 1] == '.' && s[i + 2] == '.' {
        i
    } else {
        word_end(s, i + 1)
    }
}

/// `word_end` returns a position in `[i, s.len()]`.
pub proof fn lemma_word_end(s: Seq<char>, i: int)
    requires
        0 <= i <= s.len(),
    ensures
        i <= word_end(s, i) <= s.len(),
    decreases s.len() - i,
{
    if i < s.len() {
        lemma_word_end(s, i + 1);
    }
}

/// The pattern tokens of one usage line: group characters and `|` alone,
/// `...` as one token, and maximal words.
pub open spec fn pat_toks(s: Seq<char>, i: int) -> Seq<Seq<char>>
    decreases s.len() - i,
    via pat_toks_decreases
{
    if i < 0 || i >= s.len() {
        Seq::empty()
    } else if is_blank(s[i]) {
        pat_toks(s, i + 1)
    } else if is_special(s[i]) {
        seq![seq![s[i]]] + pat_toks(s, i + 1)
    } else if s[i] == '.' && i + 3 <= s.len() && s[i + 1] == '.' && s[i + 2] == '.' {
        seq![seq!['.', '.', '.']] + pat_toks(s, i + 3)
    } else {
        let w = word_end(s, i + 1);
        seq![s.subrange(i, w)] + pat_toks(s, w)
    }
}

#[via_fn]
proof fn pat_toks_decreases(s: Seq<char>, i: int) {
    if 0 <= i < s.len() {
        lemma_word_end(s, i + 1);
    }
}

/// The children of a branch: a `Sequence` is its children, any other
/// pattern stands alone.
pub open spec fn seq_children(p: PatternModel) -> Seq<PatternModel> {
    match p {
        PatternModel::Sequence(cs) => cs,
        _ => seq![p],
    }
}

/// The atoms of a short-flag cluster from letter `j` on, resolving each
/// letter against the declarations and declaring an unknown letter as an
/// implicit boolean flag. An argument-taking letter must be last.
pub open spec fn cluster_atoms(
    w: Seq<char>,
    j: int,
    decls: Seq<FlagDeclModel>,
) -> Result<(Seq<PatternModel>, Seq<FlagDeclModel>), UsageError>
    decreases w.len() - j,
{
    if j < 0 || j >= w.len() {
        Result::Ok((Seq::empty(), decls))
    } else {
        let c = w[j];
        let d = find_short(decls, c, 0);
        if d >= 0 {
            if decls[d].takes_arg {
                if j == w.len() - 1 {
                    Result::Ok((seq![PatternModel::Flag(decls[d].name, true)], decls))
                } else {
                    Result::Err(UsageError::AmbiguousCluster)
                }
            } else {
                match cluster_atoms(w, j + 1, decls) {
                    Result::Err(e) => Result::Err(e),
                    Result::Ok(r) => Result::Ok(
                        (seq![PatternModel::Flag(decls[d].name, false)] + r.0, r.1),
                    ),
                }
            }
        } else {
            let nd = FlagDeclModel {
                name: seq!['-', c],
                short: Option::Some(c),
                long: Option::None,
                takes_arg: false,
                default: Option::None,
            };
            match cluster_atoms(w, j + 1, decls.push(nd)) {
                Result::Err(e) => Result::Err(e),
                Result::Ok(r) => Result::Ok(
                    (seq![PatternModel::Flag(seq!['-', c], false)] + r.0, r.1),
                ),
            }
        }
    }
}

/// Parses an alternation: branches separated by `|`, each a sequence.
pub open spec fn parse_alt(
    toks: Seq<Seq<char>>,
    i: int,
    decls: Seq<FlagDeclModel>,
) -> Result<(Seq<PatternModel>, int, Seq<FlagDeclModel>), UsageError>
    decreases toks.len() - i, 3int,
{
    match parse_sequence(toks, i, decls) {
        Result::Err(e) => Result::Err(e),
        Result::Ok((cs, j, d2)) => {
            if i <= j < toks.len() && toks[j] == seq!['|'] {
                match parse_alt(toks, j + 1, d2) {
                    Result::Err(e) => Result::Err(e),
                    Result::Ok((more, j2, d3)) => Result::Ok(
                        (seq![PatternModel::Sequence(cs)] + more, j2, d3),
                    ),
                }
            } else {
                Result::Ok((seq![PatternModel::Sequence(cs)], j, d2))
            }
        },
    }
}

/// Parses a sequence of terms, stopping at `]`, `)`, `|` or the end.
pub open spec fn parse_sequence(
    toks: Seq<Seq<char>>,
    i: int,
    decls: Seq<FlagDeclModel>,
) -> Result<(Seq<PatternModel>, int, Seq<FlagDeclModel>), UsageError>
    decreases toks.len() - i, 2int,
{
    if i < 0 || i >= toks.len() || toks[i] == seq![']'] || toks[i] == seq![')'] || toks[i] == seq![
        '|',
    ] {
        Result::Ok((Seq::empty(), i, decls))
    } else {
        match parse_term(toks, i, decls) {
            Result::Err(e) => Result::Err(e),
            Result::Ok((t, j, d2)) => {
                if i < j <= toks.len() {
                    match parse_sequence(toks, j, d2) {
                        Result::Err(e) => Result::Err(e),
                        Result::Ok((rest, j2, d3)) => Result::Ok((seq![t] + rest, j2, d3)),
                    }
                } else {
                    Result::Err(UsageError::UnbalancedGroup)
                }
            },
        }
    }
}

/// Parses one term: an atom, made `Repeated` by a trailing `...`.
pub open spec fn parse_term(
    toks: Seq<Seq<char>>,
    i: int,
    decls: Seq<FlagDeclModel>,
) -> Result<(PatternModel, int, Seq<FlagDeclModel>), UsageError>
    decreases toks.len() - i, 1int,
{
    match parse_atom(toks, i, decls) {
        Result::Err(e) => Result::Err(e),
        Result::Ok((a, j, d2)) => {
            if i <= j < toks.len() && toks[j] == seq!['.', '.', '.'] {
                Result::Ok((PatternModel::Repeated(Box::new(a)), j + 1, d2))
            } else {
                Result::Ok((a, j, d2))
            }
        },
    }
}

/// Parses one atom: a bracket or parenthesis group, the `options`
/// shorthand, a long flag, a short-flag cluster, a positional, or a
/// command.
pub open spec fn parse_atom(
    toks: Seq<Seq<char>>,
    i: int,
    decls: Seq<FlagDeclModel>,
) -> Result<(PatternModel, int, Seq<FlagDeclModel>), UsageError>
    decreases toks.len() - i, 0int,
{
    if i < 0 || i >= toks.len() {
        Result::Err(UsageError::UnbalancedGroup)
    } else {
        let w = toks[i];
        if w == seq!['['] {
            match parse_alt(toks, i + 1, decls) {
                Result::Err(e) => Result::Err(e),
                Result::Ok((branches, j, d2)) => {
                    if 0 <= j < toks.len() && toks[j] == seq![']'] {
                        let node = if branches.len() == 1 {
                            PatternModel::Optional(seq_children(branches[0]))
                        } else {
                            PatternModel::Optional(seq![PatternModel::Alternation(branches)])
                        };
                        Result::Ok((node, j + 1, d2))
                    } else {
                        Result::Err(UsageError::UnbalancedGroup)
                    }
                },
            }
        } else if w == seq!['('] {
            match parse_alt(toks, i + 1, decls) {
                Result::Err(e) => Result::Err(e),
                Result::Ok((branches, j, d2)) => {
                    if 0 <= j < toks.len() && toks[j] == seq![')'] {
                        let node = if branches.len() == 1 {
                            PatternModel::Sequence(seq_children(branches[0]))
                        } else {
                            PatternModel::Alternation(branches)
                        };
                        Result::Ok((node, j + 1, d2))
                    } else {
                        Result::Err(UsageError::UnbalancedGroup)
                    }
                },
            }
        } else if w == seq![']'] || w == seq![')'] || w == seq!['|'] || w == seq!['.', '.', '.'] {
            Result::Err(UsageError::UnbalancedGroup)
        } else if w == "options"@ {
            Result::Ok((PatternModel::AnyOptions, i + 1, decls))
        } else if begins_with(w, seq!['-', '-']) && w.len() > 2 {
            let eq = find_char_from(w, '=', 0);
            let name = if eq >= 0 {
                w.subrange(0, eq)
            } else {
                w
            };
            let inline = eq >= 0;
            let d = find_long(decls, name, 0);
            if d >= 0 {
                if inline && !decls[d].takes_arg {
                    Result::Err(UsageError::ArityMismatch)
                } else {
                    Result::Ok((PatternModel::Flag(decls[d].name, decls[d].takes_arg), i + 1, decls))
                }
            } else {
                let nd = FlagDeclModel {
                    name: name,
                    short: Option::None,
                    long: Option::Some(name),
                    takes_arg: inline,
                    default: Option::None,
                };
                Result::Ok((PatternModel::Flag(name, inline), i + 1, decls.push(nd)))
            }
        } else if w.len() >= 2 && w[0] == '-' {
            match cluster_atoms(w, 1, decls) {
                Result::Err(e) => Result::Err(e),
                Result::Ok((atoms, d2)) => {
                    let node = if atoms.len() == 1 {
                        atoms[0]
                    } else {
                        PatternModel::Sequence(atoms)
                    };
                    Result::Ok((node, i + 1, d2))
                },
            }
        } else if w.len() >= 2 && w[0] == '<' && w.last() == '>' {
            Result::Ok((PatternModel::Positional(w), i + 1, decls))
        } else {
            Result::Ok((PatternModel::Command(w), i + 1, decls))
        }
    }
}

/// Parses one usage source line: its first word is the program name and
/// is skipped; the rest must parse as one alternation reaching the end of
/// the line.
pub open spec fn line_branches(line: Seq<char>, decls: Seq<FlagDeclModel>) -> Result<
    (Seq<PatternModel>, Seq<FlagDeclModel>),
    UsageError,
> {
    let toks = pat_toks(line, 0);
    if toks.len() == 0 {
        Result::Ok((Seq::empty(), decls))
    } else {
        match parse_alt(toks, 1, decls) {
            Result::Err(e) => Result::Err(e),
            Result::Ok((branches, j, d2)) => {
                if j == toks.len() {
                    Result::Ok((branches, d2))
                } else {
                    Result::Err(UsageError::UnbalancedGroup)
                }
            },
        }
    }
}

/// Parses every usage source line, accumulating the alternatives and the
/// declarations.
pub open spec fn build_alts(
    srcs: Seq<Seq<char>>,
    k: int,
    decls: Seq<FlagDeclModel>,
) -> Result<(Seq<PatternModel>, Seq<FlagDeclModel>), UsageError>
    decreases srcs.len() - k,
{
    if k < 0 || k >= srcs.len() {
        Result::Ok((Seq::empty(), decls))
    } else {
        match line_branches(srcs[k], decls) {
            Result::Err(e) => Result::Err(e),
            Result::Ok((bs, d2)) => {
                match build_alts(srcs, k + 1, d2) {
                    Result::Err(e) => Result::Err(e),
                    Result::Ok((more, d3)) => Result::Ok((bs + more, d3)),
                }
            },
        }
    }
}

/// The index of the symbol named `name` from `k` on, or `-1`.
pub open spec fn find_sym(syms: Seq<SymbolModel>, name: Seq<char>, k: int) -> int
    decreases syms.len() - k,
{
    if k < 0 || k >= syms.len() {
        -1
    } else if syms[k].name == name {
        k
    } else {
        find_sym(syms, name, k + 1)
    }
}

/// Records one atom occurrence in the symbol table: a new symbol, or the
/// repetition and value marks of the known one strengthened.
pub open spec fn add_sym(
    syms: Seq<SymbolModel>,
    name: Seq<char>,
    valued: bool,
    rep: bool,
) -> Seq<SymbolModel> {
    let i = find_sym(syms, name, 0);
    if i >= 0 {
        syms.update(
            i,
            SymbolModel {
                name: syms[i].name,
                valued: syms[i].valued || valued,
                repeated: syms[i].repeated || rep,
                default: syms[i].default,
            },
        )
    } else {
        syms.push(SymbolModel { name: name, valued: valued, repeated: rep, default: Option::None })
    }
}

/// Walks the pattern tree collecting every atom into the symbol table;
/// `rep` marks atoms under a `Repeated` group.
pub open spec fn collect_syms(p: PatternModel, rep: bool, syms: Seq<SymbolModel>) -> Seq<
    SymbolModel,
>
    decreases p, 0int, 0int,
{
    match p {
        PatternModel::Command(n) => add_sym(syms, n, false, rep),
        PatternModel::Positional(n) => add_sym(syms, n, true, rep),
        PatternModel::Flag(m, t) => add_sym(syms, m, t, rep),
        PatternModel::AnyOptions => syms,
        PatternModel::Sequence(cs) => collect_children(cs, 0, rep, syms),
        PatternModel::Optional(cs) => collect_children(cs, 0, rep, syms),
        PatternModel::Alternation(cs) => collect_children(cs, 0, rep, syms),
        PatternModel::Repeated(q) => collect_syms(*q, true, syms),
    }
}

/// Walks the children from `k` on.
pub open spec fn collect_children(
    cs: Seq<PatternModel>,
    k: int,
    rep: bool,
    syms: Seq<SymbolModel>,
) -> Seq<SymbolModel>
    decreases cs, 1int, cs.len() - k,
{
    if k < 0 || k >= cs.len() {
        syms
    } else {
        collect_children(cs, k + 1, rep, collect_syms(cs[k], rep, syms))
    }
}

/// Completes the symbol table from the declarations: a declared flag that
/// the patterns never use still becomes a symbol, and a used one takes
/// its declared default.
pub open spec fn finalize_syms(
    syms: Seq<SymbolModel>,
    decls: Seq<FlagDeclModel>,
    k: int,
) -> Seq<SymbolModel>
    decreases decls.len() - k,
{
    if k < 0 || k >= decls.len() {
        syms
    } else {
        let d = decls[k];
        let i = find_sym(syms, d.name, 0);
        let syms2 = if i >= 0 {
            syms.update(
                i,
                SymbolModel {
                    name: syms[i].name,
                    valued: syms[i].valued,
                    repeated: syms[i].repeated,
                    default: d.default,
                },
            )
        } else {
            syms.push(
                SymbolModel {
                    name: d.name,
                    valued: d.takes_arg,
                    repeated: false,
                    default: d.default,
                },
            )
        };
        finalize_syms(syms2, decls, k + 1)
    }
}

/// Whether `t` is the one-character token `c`.
fn tok_is(t: &Vec<char>, c: char) -> (r: bool)
    ensures
        r == (t@ == seq![c]),
{
    if t.len() == 1 && t[0] == c {
        proof {
            assert(t@ =~= seq![c]);
        }
        true
    } else {
        proof {
            if t@ == seq![c] {
                assert(t@.len() == 1 && t@[0] == c);
            }
        }
        false
    }
}

/// Whether `t` is the ellipsis token.
fn tok_is_ellipsis(t: &Vec<char>) -> (r: bool)
    ensures
        r == (t@ == seq!['.', '.', '.']),
{
    if t.len() == 3 && t[0] == '.' && t[1] == '.' && t[2] == '.' {
        proof {
            assert(t@ =~= seq!['.', '.', '.']);
        }
        true
    } else {
        proof {
            if t@ == seq!['.', '.', '.'] {
                assert(t@.len() == 3 && t@[0] == '.' && t@[1] == '.' && t@[2] == '.');
            }
        }
        false
    }
}

/// Mirrors `usage_line_idx` on vectors.
fn usage_line_idx_x(lines: &Vec<Vec<char>>, i: usize) -> (r: Option<usize>)
    ensures
        match r {
            Option::Some(j) => usage_line_idx(sv(lines@), i as int) == j,
            Option::None => usage_line_idx(sv(lines@), i as int) == -1,
        },
    decreases lines@.len() - i,
{
    if i >= lines.len() {
        None
    } else {
        let heading = to_chars("usage:");
        if find_ci(&lines[i], &heading, 0).is_some() {
            Some(i)
        } else {
            usage_line_idx_x(lines, i + 1)
        }
    }
}

/// Mirrors `take_nonblank` on vectors.
fn take_nonblank_x(lines: &Vec<Vec<char>>, i: usize) -> (r: Vec<Vec<char>>)
    ensures
        sv(r@) == take_nonblank(sv(lines@), i as int),
    decreases lines@.len() - i,
{
    if i >= lines.len() {
        let r: Vec<Vec<char>> = Vec::new();
        proof {
            assert(sv(r@) =~= Seq::<Seq<char>>::empty());
        }
        r
    } else {
        let t = trim_x(&lines[i]);
        if t.len() == 0 {
            let r: Vec<Vec<char>> = Vec::new();
            proof {
                assert(sv(r@) =~= Seq::<Seq<char>>::empty());
            }
            r
        } else {
            let mut rest = take_nonblank_x(lines, i + 1);
            let ghost r0 = sv(rest@);
            let mut r: Vec<Vec<char>> = Vec::new();
            r.push(dup_chars(&lines[i]));
            r.append(&mut rest);
            proof {
                assert(sv(r@) =~= seq![sv(lines@)[i as int]] + r0);
            }
            r
        }
    }
}

/// Mirrors `usage_srcs` on vectors.
fn usage_srcs_x(lines: &Vec<Vec<char>>, u: usize) -> (r: Vec<Vec<char>>)
    requires
        u < lines@.len(),
    ensures
        sv(r@) == usage_srcs(sv(lines@), u as int),
{
    let heading = to_chars("usage:");
    let line = &lines[u];
    let ll = line.len();
    let rest0: Vec<char> = match find_ci(line, &heading, 0) {
        Option::Some(pos) => {
            proof {
                crate::text::lemma_find_ci_bounds(line@, "usage:"@, 0);
                assert("usage:"@.len() == 6) by {
                    reveal_strlit("usage:");
                }
            }
            copy_range(line, pos + 6, ll)
        },
        Option::None => Vec::new(),
    };
    proof {
        let pos = find_ci_from(line@, "usage:"@, 0);
        if pos < 0 {
            assert(rest0@ =~= Seq::<char>::empty());
        }
    }
    let _n = lines.len();
    let t = trim_x(&rest0);
    let mut r: Vec<Vec<char>> = Vec::new();
    if t.len() > 0 {
        r.push(rest0);
    }
    let mut rest = take_nonblank_x(lines, u + 1);
    let ghost r0 = sv(rest@);
    let ghost head = sv(r@);
    r.append(&mut rest);
    proof {
        assert(sv(r@) =~= head + r0);
        assert(sv(r@) =~= usage_srcs(sv(lines@), u as int));
    }
    r
}

/// Mirrors `option_entries` on vectors.
fn option_entries_x(lines: &Vec<Vec<char>>, i: usize, cur: Option<Vec<char>>) -> (r: Vec<Vec<char>>)
    ensures
        ({
            let cm = match cur {
                Option::Some(e) => Option::Some(e@),
                Option::None => Option::<Seq<char>>::None,
            };
            sv(r@) == option_entries(sv(lines@), i as int, cm)
        }),
    decreases lines@.len() - i,
{
    let ghost cm = match cur {
        Option::Some(ref e) => Option::Some(e@),
        Option::None => Option::<Seq<char>>::None,
    };
    if i >= lines.len() {
        match cur {
            Option::Some(e) => {
                let mut r: Vec<Vec<char>> = Vec::new();
                r.push(e);
                proof {
                    assert(sv(r@) =~= seq![cm->0]);
                }
                r
            },
            Option::None => {
                let r: Vec<Vec<char>> = Vec::new();
                proof {
                    assert(sv(r@) =~= Seq::<Seq<char>>::empty());
                }
                r
            },
        }
    } else {
        let t = trim_x(&lines[i]);
        if t.len() > 0 && t[0] == '-' {
            let mut rest = option_entries_x(lines, i + 1, Some(t));
            let ghost r0 = sv(rest@);
            match cur {
                Option::Some(e) => {
                    let mut r: Vec<Vec<char>> = Vec::new();
                    r.push(e);
                    r.append(&mut rest);
                    proof {
                        assert(sv(r@) =~= seq![cm->0] + r0);
                    }
                    r
                },
                Option::None => {
                    proof {
                        assert(sv(rest@) =~= Seq::<Seq<char>>::empty() + r0);
                    }
                    rest
                },
            }
        } else if t.len() > 0 && cur.is_some() {
            let mut joined = match cur {
                Option::Some(e) => e,
                Option::None => Vec::new(),
            };
            joined.push(' ');
            let mut t2 = t;
            let ghost tv = t2@;
            joined.append(&mut t2);
            proof {
                assert(joined@ =~= cm->0 + seq![' '] + tv);
            }
            option_entries_x(lines, i + 1, Some(joined))
        } else {
            let mut rest = option_entries_x(lines, i + 1, None);
            let ghost r0 = sv(rest@);
            match cur {
                Option::Some(e) => {
                    let mut r: Vec<Vec<char>> = Vec::new();
                    r.push(e);
                    r.append(&mut rest);
                    proof {
                        assert(sv(r@) =~= seq![cm->0] + r0);
                    }
                    r
                },
                Option::None => {
                    proof {
                        assert(sv(rest@) =~= Seq::<Seq<char>>::empty() + r0);
                    }
                    rest
                },
            }
        }
    }
}

/// Mirrors `strip_comma` on a vector.
fn strip_comma_x(w: &Vec<char>) -> (r: Vec<char>)
    ensures
        r@ == strip_comma(w@),
{
    if w.len() > 0 && w[w.len() - 1] == ',' {
        let r = copy_range(w, 0, w.len() - 1);
        proof {
            assert(w@.subrange(0, w@.len() - 1) =~= w@.drop_last());
        }
        r
    } else {
        dup_chars(w)
    }
}

/// Mirrors `is_argspec` on a vector.
fn is_argspec_x(w: &Vec<char>) -> (r: bool)
    ensures
        r == is_argspec(w@),
{
    if w.len() >= 2 && w[0] == '<' && w[w.len() - 1] == '>' {
        return true;
    }
    if w.len() < 2 {
        return false;
    }
    all_caps_x(w, 0)
}

/// Mirrors `all_caps` on a vector.
fn all_caps_x(w: &Vec<char>, j: usize) -> (r: bool)
    ensures
        r == all_caps(w@, j as int),
    decreases w@.len() - j,
{
    if j >= w.len() {
        true
    } else {
        let c = w[j] as u32;
        if 65 <= c && c <= 90 {
            all_caps_x(w, j + 1)
        } else {
            false
        }
    }
}

/// Mirrors `scan_opt_words` on vectors.
fn scan_opt_words_x(
    ws: &Vec<Vec<char>>,
    k: usize,
    short: Option<char>,
    long: Option<Vec<char>>,
    takes: bool,
) -> (r: (Option<char>, Option<Vec<char>>, bool))
    ensures
        ({
            let lm = match long {
                Option::Some(l) => Option::Some(l@),
                Option::None => Option::<Seq<char>>::None,
            };
            let m = scan_opt_words(sv(ws@), k as int, short, lm, takes);
            r.0 == m.0 && (match r.1 {
                Option::Some(l2) => m.1 == Option::Some(l2@),
                Option::None => m.1 is None,
            }) && r.2 == m.2
        }),
    decreases ws@.len() - k,
{
    if k >= ws.len() {
        (short, long, takes)
    } else {
        let w = strip_comma_x(&ws[k]);
        let dashes = to_chars("--");
        proof {
            assert("--"@ =~= seq!['-', '-']) by {
                reveal_strlit("--");
            }
        }
        if begins_with_x(&w, &dashes) && w.len() > 2 {
            let mut has_eq: bool = false;
            let name: Vec<char> = match find_char(&w, '=', 0) {
                Option::Some(eq) => {
                    proof {
                        lemma_find_char_from(w@, '=', 0);
                    }
                    has_eq = true;
                    copy_range(&w, 0, eq)
                },
                Option::None => w,
            };
            let long2 = match long {
                Option::Some(l) => Option::Some(l),
                Option::None => Option::Some(name),
            };
            scan_opt_words_x(ws, k + 1, short, long2, takes || has_eq)
        } else if w.len() >= 2 && {
            let c0 = w[0];
            c0 == '-'
        } {
            let short2 = match short {
                Option::Some(c) => Some(c),
                Option::None => Some(w[1]),
            };
            scan_opt_words_x(ws, k + 1, short2, long, takes)
        } else if is_argspec_x(&w) {
            scan_opt_words_x(ws, k + 1, short, long, true)
        } else {
            (short, long, takes)
        }
    }
}

/// Mirrors `default_of` on a vector.
fn default_of_x(e: &Vec<char>) -> (r: Option<Vec<char>>)
    ensures
        match r {
            Option::Some(d) => default_of(e@) == Option::Some(d@),
            Option::None => default_of(e@) is None,
        },
{
    let marker = to_chars("(default:");
    match find_ci(e, &marker, 0) {
        Option::None => None,
        Option::Some(p) => {
            proof {
                crate::text::lemma_find_ci_bounds(e@, "(default:"@, 0);
                assert("(default:"@.len() == 9) by {
                    reveal_strlit("(default:");
                }
            }
            match find_char(e, ')', p) {
                Option::None => {
                    proof {
                        lemma_find_char_from(e@, ')', p as int);
                    }
                    None
                },
                Option::Some(q) => {
                    proof {
                        lemma_find_char_from(e@, ')', p as int);
                    }
                    if q >= p && q - p >= 9 {
                        let piece = copy_range(e, p + 9, q);
                        Some(trim_x(&piece))
                    } else {
                        None
                    }
                },
            }
        },
    }
}

/// Mirrors `parse_opt_entry` on a vector.
fn parse_opt_entry_x(e: &Vec<char>) -> (r: Result<FlagDecl, UsageError>)
    ensures
        match r {
            Result::Ok(d) => parse_opt_entry(e@) == Result::<FlagDeclModel, UsageError>::Ok(
                d.model(),
            ),
            Result::Err(err) => parse_opt_entry(e@) == Result::<FlagDeclModel, UsageError>::Err(
                err,
            ),
        },
{
    let ws = words(e);
    let scanned = scan_opt_words_x(&ws, 0, None, None, false);
    let dflt = default_of_x(e);
    match scanned.1 {
        Option::Some(l) => {
            let name = dup_chars(&l);
            Result::Ok(
                FlagDecl {
                    name: name,
                    short: scanned.0,
                    long: Some(l),
                    takes_arg: scanned.2,
                    default: dflt,
                },
            )
        },
        Option::None => match scanned.0 {
            Option::Some(c) => {
                let mut name: Vec<char> = Vec::new();
                name.push('-');
                name.push(c);
                proof {
                    assert(name@ =~= seq!['-', c]);
                }
                Result::Ok(
                    FlagDecl {
                        name: name,
                        short: Some(c),
                        long: None,
                        takes_arg: scanned.2,
                        default: dflt,
                    },
                )
            },
            Option::None => Result::Err(UsageError::BadOptionLine),
        },
    }
}

/// Mirrors `build_decls` on vectors.
fn build_decls_x(entries: &Vec<Vec<char>>, k: usize, acc: Vec<FlagDecl>) -> (r: Result<
    Vec<FlagDecl>,
    UsageError,
>)
    ensures
        match r {
            Result::Ok(ds) => build_decls(sv(entries@), k as int, flags_model(acc@)) == Result::<
                Seq<FlagDeclModel>,
                UsageError,
            >::Ok(flags_model(ds@)),
            Result::Err(e) => build_decls(sv(entries@), k as int, flags_model(acc@)) == Result::<
                Seq<FlagDeclModel>,
                UsageError,
            >::Err(e),
        },
    decreases entries@.len() - k,
{
    if k >= entries.len() {
        Result::Ok(acc)
    } else {
        match parse_opt_entry_x(&entries[k]) {
            Result::Err(e) => Result::Err(e),
            Result::Ok(d) => {
                let dup_long = match &d.long {
                    Option::Some(l) => find_long_x(&acc, l, 0).is_some(),
                    Option::None => false,
                };
                let dup_short = match d.short {
                    Option::Some(c) => find_short_x(&acc, c, 0).is_some(),
                    Option::None => false,
                };
                if dup_long || dup_short {
                    Result::Err(UsageError::DuplicateFlag)
                } else {
                    let mut acc2 = acc;
                    let ghost acc0 = flags_model(acc2@);
                    acc2.push(d);
                    proof {
                        assert(flags_model(acc2@) =~= acc0.push(acc2@.last().model()));
                    }
                    build_decls_x(entries, k + 1, acc2)
                }
            },
        }
    }
}

/// Mirrors `word_end` on a vector.
fn word_end_x(s: &Vec<char>, i: usize) -> (r: usize)
    requires
        i <= s@.len(),
    ensures
        r == word_end(s@, i as int),
        i <= r <= s@.len(),
    decreases s@.len() - i,
{
    let n = s.len();
    if i >= n {
        n
    } else {
        let c = s[i];
        if c == ' ' || c == '\t' || c == '\r' || c == '[' || c == ']' || c == '(' || c == ')' || c
            == '|' {
            i
        } else if c == '.' && n - i >= 3 && s[i + 1] == '.' && s[i + 2] == '.' {
            i
        } else {
            word_end_x(s, i + 1)
        }
    }
}

/// Mirrors `pat_toks` on a vector.
fn pat_toks_x(s: &Vec<char>, i: usize) -> (r: Vec<Vec<char>>)
    requires
        i <= s@.len(),
    ensures
        sv(r@) == pat_toks(s@, i as int),
    decreases s@.len() - i,
{
    let n = s.len();
    if i >= n {
        let r: Vec<Vec<char>> = Vec::new();
        proof {
            assert(sv(r@) =~= Seq::<Seq<char>>::empty());
        }
        r
    } else {
        let c = s[i];
        if c == ' ' || c == '\t' || c == '\r' {
            pat_toks_x(s, i + 1)
        } else if c == '[' || c == ']' || c == '(' || c == ')' || c == '|' {
            let mut rest = pat_toks_x(s, i + 1);
            let ghost r0 = sv(rest@);
            let mut r: Vec<Vec<char>> = Vec::new();
            let mut one: Vec<char> = Vec::new();
            one.push(c);
            proof {
                assert(one@ =~= seq![s@[i as int]]);
            }
            r.push(one);
            r.append(&mut rest);
            proof {
                assert(sv(r@) =~= seq![seq![s@[i as int]]] + r0);
            }
            r
        } else if c == '.' && n - i >= 3 && s[i + 1] == '.' && s[i + 2] == '.' {
            let mut rest = pat_toks_x(s, i + 3);
            let ghost r0 = sv(rest@);
            let mut r: Vec<Vec<char>> = Vec::new();
            let mut dots: Vec<char> = Vec::new();
            dots.push('.');
            dots.push('.');
            dots.push('.');
            proof {
                assert(dots@ =~= seq!['.', '.', '.']);
            }
            r.push(dots);
            r.append(&mut rest);
            proof {
                assert(sv(r@) =~= seq![seq!['.', '.', '.']] + r0);
            }
            r
        } else {
            let w = word_end_x(s, i + 1);
            let head = copy_range(s, i, w);
            let mut rest = pat_toks_x(s, w);
            let ghost r0 = sv(rest@);
            let mut r: Vec<Vec<char>> = Vec::new();
            r.push(head);
            r.append(&mut rest);
            proof {
                assert(sv(r@) =~= seq![s@.subrange(i as int, w as int)] + r0);
            }
            r
        }
    }
}

/// A vector holding one pattern in front of the patterns of `rest`.
fn cons_pattern(p: Pattern, rest: Vec<Pattern>) -> (r: Vec<Pattern>)
    ensures
        models_of(r@) == seq![p.model()] + models_of(rest@),
{
    let ghost pm = p.model();
    let ghost restv = rest@;
    let mut r: Vec<Pattern> = Vec::new();
    r.push(p);
    let mut rest2 = rest;
    r.append(&mut rest2);
    proof {
        lemma_models_of(r@);
        lemma_models_of(restv);
        assert(models_of(r@) =~= seq![pm] + models_of(restv));
    }
    r
}

/// A vector holding one pattern.
fn one_pattern(p: Pattern) -> (r: Vec<Pattern>)
    ensures
        models_of(r@) == seq![p.model()],
{
    let ghost pm = p.model();
    let mut r: Vec<Pattern> = Vec::new();
    r.push(p);
    proof {
        lemma_models_of(r@);
        assert(models_of(r@) =~= seq![pm]);
    }
    r
}

/// Mirrors `cluster_atoms` on vectors.
fn cluster_atoms_x(w: &Vec<char>, j: usize, decls: Vec<FlagDecl>) -> (r: Result<
    (Vec<Pattern>, Vec<FlagDecl>),
    UsageError,
>)
    ensures
        ({
            let m = cluster_atoms(w@, j as int, flags_model(decls@));
            match r {
                Result::Ok(p) => m == Result::<
                    (Seq<PatternModel>, Seq<FlagDeclModel>),
                    UsageError,
                >::Ok((models_of(p.0@), flags_model(p.1@))),
                Result::Err(e) => m == Result::<
                    (Seq<PatternModel>, Seq<FlagDeclModel>),
                    UsageError,
                >::Err(e),
            }
        }),
    decreases w@.len() - j,
{
    let n = w.len();
    if j >= n {
        let empty: Vec<Pattern> = Vec::new();
        proof {
            lemma_models_of(empty@);
            assert(models_of(empty@) =~= Seq::<PatternModel>::empty());
        }
        return Result::Ok((empty, decls));
    }
    let c = w[j];
    match find_short_x(&decls, c, 0) {
        Option::Some(d) => {
            proof {
                crate::grammar::lemma_find_flag(flags_model(decls@), seq![], c, 0);
            }
            if decls[d].takes_arg {
                if j == n - 1 {
                    let ps = one_pattern(Pattern::Flag(dup_chars(&decls[d].name), true));
                    Result::Ok((ps, decls))
                } else {
                    Result::Err(UsageError::AmbiguousCluster)
                }
            } else {
                let head = Pattern::Flag(dup_chars(&decls[d].name), false);
                match cluster_atoms_x(w, j + 1, decls) {
                    Result::Err(e) => Result::Err(e),
                    Result::Ok((ps, d2)) => Result::Ok((cons_pattern(head, ps), d2)),
                }
            }
        },
        Option::None => {
            let mut nm: Vec<char> = Vec::new();
            nm.push('-');
            nm.push(c);
            proof {
                assert(nm@ =~= seq!['-', c]);
            }
            let head = Pattern::Flag(dup_chars(&nm), false);
            let nd = FlagDecl {
                name: nm,
                short: Some(c),
                long: None,
                takes_arg: false,
                default: None,
            };
            let mut d2 = decls;
            let ghost d0 = flags_model(d2@);
            d2.push(nd);
            proof {
                assert(flags_model(d2@) =~= d0.push(d2@.last().model()));
            }
            match cluster_atoms_x(w, j + 1, d2) {
                Result::Err(e) => Result::Err(e),
                Result::Ok((ps, d3)) => Result::Ok((cons_pattern(head, ps), d3)),
            }
        },
    }
}

/// Mirrors `parse_alt` on vectors.
fn parse_alt_x(toks: &Vec<Vec<char>>, i: usize, decls: Vec<FlagDecl>) -> (r: Result<
    (Vec<Pattern>, usize, Vec<FlagDecl>),
    UsageError,
>)
    requires
        i <= toks@.len(),
    ensures
        ({
            let m = parse_alt(sv(toks@), i as int, flags_model(decls@));
            match r {
                Result::Ok(t) => m == Result::<
                    (Seq<PatternModel>, int, Seq<FlagDeclModel>),
                    UsageError,
                >::Ok((models_of(t.0@), t.1 as int, flags_model(t.2@))) && t.1 <= toks@.len(),
                Result::Err(e) => m == Result::<
                    (Seq<PatternModel>, int, Seq<FlagDeclModel>),
                    UsageError,
                >::Err(e),
            }
        }),
    decreases toks@.len() - i, 3int,
{
    match parse_sequence_x(toks, i, decls) {
        Result::Err(e) => Result::Err(e),
        Result::Ok((cs, j, d2)) => {
            let branch = Pattern::Sequence(cs);
            if i <= j && j < toks.len() && tok_is(&toks[j], '|') {
                match parse_alt_x(toks, j + 1, d2) {
                    Result::Err(e) => Result::Err(e),
                    Result::Ok((more, j2, d3)) => Result::Ok(
                        (cons_pattern(branch, more), j2, d3),
                    ),
                }
            } else {
                Result::Ok((one_pattern(branch), j, d2))
            }
        },
    }
}

/// Mirrors `parse_sequence` on vectors.
fn parse_sequence_x(toks: &Vec<Vec<char>>, i: usize, decls: Vec<FlagDecl>) -> (r: Result<
    (Vec<Pattern>, usize, Vec<FlagDecl>),
    UsageError,
>)
    requires
        i <= toks@.len(),
    ensures
        ({
            let m = parse_sequence(sv(toks@), i as int, flags_model(decls@));
            match r {
                Result::Ok(t) => m == Result::<
                    (Seq<PatternModel>, int, Seq<FlagDeclModel>),
                    UsageError,
                >::Ok((models_of(t.0@), t.1 as int, flags_model(t.2@))) && t.1 <= toks@.len(),
                Result::Err(e) => m == Result::<
                    (Seq<PatternModel>, int, Seq<FlagDeclModel>),
                    UsageError,
                >::Err(e),
            }
        }),
    decreases toks@.len() - i, 2int,
{
    if i >= toks.len() || tok_is(&toks[i], ']') || tok_is(&toks[i], ')') || tok_is(&toks[i], '|') {
        let empty: Vec<Pattern> = Vec::new();
        proof {
            lemma_models_of(empty@);
            assert(models_of(empty@) =~= Seq::<PatternModel>::empty());
        }
        Result::Ok((empty, i, decls))
    } else {
        match parse_term_x(toks, i, decls) {
            Result::Err(e) => Result::Err(e),
            Result::Ok((t, j, d2)) => {
                if i < j && j <= toks.len() {
                    match parse_sequence_x(toks, j, d2) {
                        Result::Err(e) => Result::Err(e),
                        Result::Ok((rest, j2, d3)) => Result::Ok(
                            (cons_pattern(t, rest), j2, d3),
                        ),
                    }
                } else {
                    Result::Err(UsageError::UnbalancedGroup)
                }
            },
        }
    }
}

/// Mirrors `parse_term` on vectors.
fn parse_term_x(toks: &Vec<Vec<char>>, i: usize, decls: Vec<FlagDecl>) -> (r: Result<
    (Pattern, usize, Vec<FlagDecl>),
    UsageError,
>)
    requires
        i <= toks@.len(),
    ensures
        ({
            let m = parse_term(sv(toks@), i as int, flags_model(decls@));
            match r {
                Result::Ok(t) => m == Result::<
                    (PatternModel, int, Seq<FlagDeclModel>),
                    UsageError,
                >::Ok((t.0.model(), t.1 as int, flags_model(t.2@))) && t.1 <= toks@.len(),
                Result::Err(e) => m == Result::<
                    (PatternModel, int, Seq<FlagDeclModel>),
                    UsageError,
                >::Err(e),
            }
        }),
    decreases toks@.len() - i, 1int,
{
    match parse_atom_x(toks, i, decls) {
        Result::Err(e) => Result::Err(e),
        Result::Ok((a, j, d2)) => {
            if i <= j && j < toks.len() && tok_is_ellipsis(&toks[j]) {
                Result::Ok((Pattern::Repeated(Box::new(a)), j + 1, d2))
            } else {
                Result::Ok((a, j, d2))
            }
        },
    }
}

/// Mirrors `parse_atom` on vectors.
fn parse_atom_x(toks: &Vec<Vec<char>>, i: usize, decls: Vec<FlagDecl>) -> (r: Result<
    (Pattern, usize, Vec<FlagDecl>),
    UsageError,
>)
    requires
        i <= toks@.len(),
    ensures
        ({
            let m = parse_atom(sv(toks@), i as int, flags_model(decls@));
            match r {
                Result::Ok(t) => m == Result::<
                    (PatternModel, int, Seq<FlagDeclModel>),
                    UsageError,
                >::Ok((t.0.model(), t.1 as int, flags_model(t.2@))) && t.1 <= toks@.len(),
                Result::Err(e) => m == Result::<
                    (PatternModel, int, Seq<FlagDeclModel>),
                    UsageError,
                >::Err(e),
            }
        }),
    decreases toks@.len() - i, 0int,
{
    if i >= toks.len() {
        return Result::Err(UsageError::UnbalancedGroup);
    }
    let w = &toks[i];
    if tok_is(w, '[') {
        match parse_alt_x(toks, i + 1, decls) {
            Result::Err(e) => Result::Err(e),
            Result::Ok((branches, j, d2)) => {
                if j < toks.len() && tok_is(&toks[j], ']') {
                    let node = group_optional(branches);
                    Result::Ok((node, j + 1, d2))
                } else {
                    Result::Err(UsageError::UnbalancedGroup)
                }
            },
        }
    } else if tok_is(w, '(') {
        match parse_alt_x(toks, i + 1, decls) {
            Result::Err(e) => Result::Err(e),
            Result::Ok((branches, j, d2)) => {
                if j < toks.len() && tok_is(&toks[j], ')') {
                    let node = group_required(branches);
                    Result::Ok((node, j + 1, d2))
                } else {
                    Result::Err(UsageError::UnbalancedGroup)
                }
            },
        }
    } else if tok_is(w, ']') || tok_is(w, ')') || tok_is(w, '|') || tok_is_ellipsis(w) {
        Result::Err(UsageError::UnbalancedGroup)
    } else if seq_eq(w, &to_chars("options")) {
        Result::Ok((Pattern::AnyOptions, i + 1, decls))
    } else if {
        let dashes = to_chars("--");
        proof {
            assert("--"@ =~= seq!['-', '-']) by {
                reveal_strlit("--");
            }
        }
        begins_with_x(w, &dashes) && w.len() > 2
    } {
        let mut inline: bool = false;
        let name: Vec<char> = match find_char(w, '=', 0) {
            Option::Some(eq) => {
                proof {
                    lemma_find_char_from(w@, '=', 0);
                }
                inline = true;
                copy_range(w, 0, eq)
            },
            Option::None => dup_chars(w),
        };
        match find_long_x(&decls, &name, 0) {
            Option::Some(d) => {
                proof {
                    crate::grammar::lemma_find_flag(flags_model(decls@), name@, '-', 0);
                }
                if inline && !decls[d].takes_arg {
                    Result::Err(UsageError::ArityMismatch)
                } else {
                    let node = Pattern::Flag(dup_chars(&decls[d].name), decls[d].takes_arg);
                    Result::Ok((node, i + 1, decls))
                }
            },
            Option::None => {
                let node = Pattern::Flag(dup_chars(&name), inline);
                let nd = FlagDecl {
                    name: dup_chars(&name),
                    short: None,
                    long: Some(name),
                    takes_arg: inline,
                    default: None,
                };
                let mut d2 = decls;
                let ghost d0 = flags_model(d2@);
                d2.push(nd);
                proof {
                    assert(flags_model(d2@) =~= d0.push(d2@.last().model()));
                }
                Result::Ok((node, i + 1, d2))
            },
        }
    } else if w.len() >= 2 && {
        let c0 = w[0];
        c0 == '-'
    } {
        match cluster_atoms_x(w, 1, decls) {
            Result::Err(e) => Result::Err(e),
            Result::Ok((atoms, d2)) => {
                let ghost av = atoms@;
                proof {
                    lemma_models_of(av);
                }
                if atoms.len() == 1 {
                    let mut a2 = atoms;
                    match a2.pop() {
                        Option::Some(a) => {
                            proof {
                                assert(a2@.push(a) =~= av);
                                assert(models_of(av)[0] == a.model());
                            }
                            Result::Ok((a, i + 1, d2))
                        },
                        Option::None => Result::Err(UsageError::UnbalancedGroup),
                    }
                } else {
                    Result::Ok((Pattern::Sequence(atoms), i + 1, d2))
                }
            },
        }
    } else if w.len() >= 2 && {
        let c0 = w[0];
        let cl = w[w.len() - 1];
        c0 == '<' && cl == '>'
    } {
        Result::Ok((Pattern::Positional(dup_chars(w)), i + 1, decls))
    } else {
        Result::Ok((Pattern::Command(dup_chars(w)), i + 1, decls))
    }
}

/// The optional group over some branches: the children of a single
/// branch, each individually optional, or the whole alternation optional.
fn group_optional(branches: Vec<Pattern>) -> (r: Pattern)
    ensures
        r.model() == (if models_of(branches@).len() == 1 {
            PatternModel::Optional(seq_children(models_of(branches@)[0]))
        } else {
            PatternModel::Optional(seq![PatternModel::Alternation(models_of(branches@))])
        }),
{
    let ghost av = branches@;
    proof {
        lemma_models_of(av);
    }
    if branches.len() == 1 {
        let mut bs = branches;
        match bs.pop() {
            Option::Some(b) => {
                proof {
                    assert(bs@.push(b) =~= av);
                    assert(models_of(av)[0] == b.model());
                }
                match b {
                    Pattern::Sequence(cs) => Pattern::Optional(cs),
                    other => Pattern::Optional(one_pattern(other)),
                }
            },
            Option::None => Pattern::Optional(Vec::new()),
        }
    } else {
        Pattern::Optional(one_pattern(Pattern::Alternation(branches)))
    }
}

/// The required group over some branches: the children of a single
/// branch in sequence, or the alternation of several.
fn group_required(branches: Vec<Pattern>) -> (r: Pattern)
    ensures
        r.model() == (if models_of(branches@).len() == 1 {
            PatternModel::Sequence(seq_children(models_of(branches@)[0]))
        } else {
            PatternModel::Alternation(models_of(branches@))
        }),
{
    let ghost av = branches@;
    proof {
        lemma_models_of(av);
    }
    if branches.len() == 1 {
        let mut bs = branches;
        match bs.pop() {
            Option::Some(b) => {
                proof {
                    assert(bs@.push(b) =~= av);
                    assert(models_of(av)[0] == b.model());
                }
                match b {
                    Pattern::Sequence(cs) => Pattern::Sequence(cs),
                    other => Pattern::Sequence(one_pattern(other)),
                }
            },
            Option::None => Pattern::Sequence(Vec::new()),
        }
    } else {
        Pattern::Alternation(branches)
    }
}

/// The compiled grammar of a usage text, or the first error of its
/// compilation: the pattern tree over every usage alternative, the flag
/// declarations, and the completed symbol table.

/// The compiled grammar of a usage text, or the first error of its
/// compilation: the pattern tree over every usage alternative, the flag
/// declarations, and the completed symbol table.
pub open spec fn compile_model(doc: Seq<char>) -> Result<
    crate::grammar::GrammarModel,
    UsageError,
> {
    let lines = split_on(doc, '\n');
    let u = usage_line_idx(lines, 0);
    if u < 0 {
        Result::Err(UsageError::NoUsageSection)
    } else {
        let srcs = usage_srcs(lines, u);
        if srcs.len() == 0 {
            Result::Err(UsageError::NoUsageSection)
        } else {
            let block_end = u + 1 + take_nonblank(lines, u + 1).len();
            let entries = option_entries(lines, block_end as int, Option::None);
            match build_decls(entries, 0, Seq::empty()) {
                Result::Err(e) => Result::Err(e),
                Result::Ok(decls0) => {
                    match build_alts(srcs, 0, decls0) {
                        Result::Err(e) => Result::Err(e),
                        Result::Ok((branches, decls1)) => {
                            let pattern = PatternModel::Alternation(branches);
                            let syms0 = collect_syms(pattern, false, Seq::empty());
                            let syms = finalize_syms(syms0, decls1, 0);
                            Result::Ok(
                                crate::grammar::GrammarModel {
                                    pattern: pattern,
                                    flags: decls1,
                                    symbols: syms,
                                },
                            )
                        },
                    }
                },
            }
        }
    }
}

/// Mirrors `line_branches` on vectors.
fn line_branches_x(line: &Vec<char>, decls: Vec<FlagDecl>) -> (r: Result<
    (Vec<Pattern>, Vec<FlagDecl>),
    UsageError,
>)
    ensures
        ({
            let m = line_branches(line@, flags_model(decls@));
            match r {
                Result::Ok(t) => m == Result::<
                    (Seq<PatternModel>, Seq<FlagDeclModel>),
                    UsageError,
                >::Ok((models_of(t.0@), flags_model(t.1@))),
                Result::Err(e) => m == Result::<
                    (Seq<PatternModel>, Seq<FlagDeclModel>),
                    UsageError,
                >::Err(e),
            }
        }),
{
    let toks = pat_toks_x(line, 0);
    if toks.len() == 0 {
        let empty: Vec<Pattern> = Vec::new();
        proof {
            lemma_models_of(empty@);
            assert(models_of(empty@) =~= Seq::<PatternModel>::empty());
        }
        Result::Ok((empty, decls))
    } else {
        match parse_alt_x(&toks, 1, decls) {
            Result::Err(e) => Result::Err(e),
            Result::Ok((branches, j, d2)) => {
                if j == toks.len() {
                    Result::Ok((branches, d2))
                } else {
                    Result::Err(UsageError::UnbalancedGroup)
                }
            },
        }
    }
}

/// Mirrors `build_alts` on vectors.
fn build_alts_x(srcs: &Vec<Vec<char>>, k: usize, decls: Vec<FlagDecl>) -> (r: Result<
    (Vec<Pattern>, Vec<FlagDecl>),
    UsageError,
>)
    ensures
        ({
            let m = build_alts(sv(srcs@), k as int, flags_model(decls@));
            match r {
                Result::Ok(t) => m == Result::<
                    (Seq<PatternModel>, Seq<FlagDeclModel>),
                    UsageError,
                >::Ok((models_of(t.0@), flags_model(t.1@))),
                Result::Err(e) => m == Result::<
                    (Seq<PatternModel>, Seq<FlagDeclModel>),
                    UsageError,
                >::Err(e),
            }
        }),
    decreases srcs@.len() - k,
{
    if k >= srcs.len() {
        let empty: Vec<Pattern> = Vec::new();
        proof {
            lemma_models_of(empty@);
            assert(models_of(empty@) =~= Seq::<PatternModel>::empty());
        }
        Result::Ok((empty, decls))
    } else {
        match line_branches_x(&srcs[k], decls) {
            Result::Err(e) => Result::Err(e),
            Result::Ok((bs, d2)) => {
                match build_alts_x(srcs, k + 1, d2) {
                    Result::Err(e) => Result::Err(e),
                    Result::Ok((more, d3)) => {
                        let ghost bs0 = models_of(bs@);
                        let ghost bsv = bs@;
                        let ghost more0 = models_of(more@);
                        let ghost morev = more@;
                        let mut out = bs;
                        let mut more2 = more;
                        out.append(&mut more2);
                        proof {
                            lemma_models_of(out@);
                            lemma_models_of(bsv);
                            lemma_models_of(morev);
                            assert(models_of(out@) =~= bs0 + more0);
                        }
                        Result::Ok((out, d3))
                    },
                }
            },
        }
    }
}

/// `find_sym` returns `-1` or a position holding the name sought.
proof fn lemma_find_sym(syms: Seq<SymbolModel>, name: Seq<char>, k: int)
    requires
        0 <= k,
    ensures
        find_sym(syms, name, k) == -1 || (k <= find_sym(syms, name, k) < syms.len() && syms[
            find_sym(syms, name, k)
        ].name == name),
    decreases syms.len() - k,
{
    if k < syms.len() {
        lemma_find_sym(syms, name, k + 1);
    }
}

/// Mirrors `find_sym` on vectors.
fn find_sym_x(syms: &Vec<Symbol>, name: &Vec<char>, k: usize) -> (r: Option<usize>)
    ensures
        match r {
            Option::Some(j) => find_sym(symbols_model(syms@), name@, k as int) == j,
            Option::None => find_sym(symbols_model(syms@), name@, k as int) == -1,
        },
    decreases syms@.len() - k,
{
    if k >= syms.len() {
        None
    } else if seq_eq(&syms[k].name, name) {
        Some(k)
    } else {
        find_sym_x(syms, name, k + 1)
    }
}

/// Mirrors `add_sym` on vectors.
fn add_sym_x(syms: Vec<Symbol>, name: Vec<char>, valued: bool, rep: bool) -> (r: Vec<Symbol>)
    ensures
        symbols_model(r@) == add_sym(symbols_model(syms@), name@, valued, rep),
{
    match find_sym_x(&syms, &name, 0) {
        Option::Some(i) => {
            proof {
                lemma_find_sym(symbols_model(syms@), name@, 0);
            }
            let ns = Symbol {
                name: dup_chars(&syms[i].name),
                valued: syms[i].valued || valued,
                repeated: syms[i].repeated || rep,
                default: dup_opt(&syms[i].default),
            };
            let mut s2 = syms;
            let ghost s0 = symbols_model(s2@);
            s2[i] = ns;
            proof {
                assert(symbols_model(s2@) =~= s0.update(
                    i as int,
                    s2@[i as int].model(),
                ));
            }
            s2
        },
        Option::None => {
            let mut s2 = syms;
            let ghost s0 = symbols_model(s2@);
            s2.push(Symbol { name: name, valued: valued, repeated: rep, default: None });
            proof {
                assert(symbols_model(s2@) =~= s0.push(s2@.last().model()));
            }
            s2
        },
    }
}

/// Mirrors `collect_syms` on vectors.
fn collect_syms_x(p: &Pattern, rep: bool, syms: Vec<Symbol>) -> (r: Vec<Symbol>)
    ensures
        symbols_model(r@) == collect_syms(p.model(), rep, symbols_model(syms@)),
    decreases p.model(), 0int, 0int,
{
    match p {
        Pattern::Command(n) => add_sym_x(syms, dup_chars(n), false, rep),
        Pattern::Positional(n) => add_sym_x(syms, dup_chars(n), true, rep),
        Pattern::Flag(m, t) => add_sym_x(syms, dup_chars(m), *t, rep),
        Pattern::AnyOptions => syms,
        Pattern::Sequence(cs) => {
            proof {
                assert(p.model() == PatternModel::Sequence(models_of(cs@)));
                assert(decreases_to!(p.model() => p.model()->Sequence_0));
            }
            collect_children_x(cs, 0, rep, syms)
        },
        Pattern::Optional(cs) => {
            proof {
                assert(p.model() == PatternModel::Optional(models_of(cs@)));
                assert(decreases_to!(p.model() => p.model()->Optional_0));
            }
            collect_children_x(cs, 0, rep, syms)
        },
        Pattern::Alternation(cs) => {
            proof {
                assert(p.model() == PatternModel::Alternation(models_of(cs@)));
                assert(decreases_to!(p.model() => p.model()->Alternation_0));
            }
            collect_children_x(cs, 0, rep, syms)
        },
        Pattern::Repeated(bx) => {
            proof {
                assert(p.model() == PatternModel::Repeated(Box::new(bx.model())));
                assert(decreases_to!(p.model() => p.model()->Repeated_0));
            }
            collect_syms_x(bx, true, syms)
        },
    }
}

/// Mirrors `collect_children` on vectors.
fn collect_children_x(cs: &Vec<Pattern>, k: usize, rep: bool, syms: Vec<Symbol>) -> (r: Vec<Symbol>)
    ensures
        symbols_model(r@) == collect_children(models_of(cs@), k as int, rep, symbols_model(syms@)),
    decreases models_of(cs@), 1int, cs@.len() - k,
{
    proof {
        lemma_models_of(cs@);
    }
    if k >= cs.len() {
        syms
    } else {
        proof {
            assert(decreases_to!(models_of(cs@) => models_of(cs@)[k as int]));
        }
        let s2 = collect_syms_x(&cs[k], rep, syms);
        collect_children_x(cs, k + 1, rep, s2)
    }
}

/// Mirrors `finalize_syms` on vectors.
fn finalize_syms_x(syms: Vec<Symbol>, decls: &Vec<FlagDecl>, k: usize) -> (r: Vec<Symbol>)
    ensures
        symbols_model(r@) == finalize_syms(symbols_model(syms@), flags_model(decls@), k as int),
    decreases decls@.len() - k,
{
    if k >= decls.len() {
        syms
    } else {
        let d = &decls[k];
        let s2 = match find_sym_x(&syms, &d.name, 0) {
            Option::Some(i) => {
                proof {
                    lemma_find_sym(symbols_model(syms@), d.name@, 0);
                }
                let ns = Symbol {
                    name: dup_chars(&syms[i].name),
                    valued: syms[i].valued,
                    repeated: syms[i].repeated,
                    default: dup_opt(&d.default),
                };
                let mut s2 = syms;
                let ghost s0 = symbols_model(s2@);
                s2[i] = ns;
                proof {
                    assert(symbols_model(s2@) =~= s0.update(i as int, s2@[i as int].model()));
                }
                s2
            },
            Option::None => {
                let mut s2 = syms;
                let ghost s0 = symbols_model(s2@);
                s2.push(
                    Symbol {
                        name: dup_chars(&d.name),
                        valued: d.takes_arg,
                        repeated: false,
                        default: dup_opt(&d.default),
                    },
                );
                proof {
                    assert(symbols_model(s2@) =~= s0.push(s2@.last().model()));
                }
                s2
            },
        };
        finalize_syms_x(s2, decls, k + 1)
    }
}

/// `usage_line_idx` returns `-1` or a line position in `[i, lines.len())`.
proof fn lemma_usage_line_idx(lines: Seq<Seq<char>>, i: int)
    requires
        0 <= i,
    ensures
        usage_line_idx(lines, i) == -1 || i <= usage_line_idx(lines, i) < lines.len(),
    decreases lines.len() - i,
{
    if i < lines.len() {
        lemma_usage_line_idx(lines, i + 1);
    }
}

/// `take_nonblank` takes at most the lines that remain.
proof fn lemma_take_nonblank_len(lines: Seq<Seq<char>>, i: int)
    requires
        0 <= i <= lines.len(),
    ensures
        take_nonblank(lines, i).len() <= lines.len() - i,
    decreases lines.len() - i,
{
    if i < lines.len() && trim(lines[i]).len() != 0 {
        lemma_take_nonblank_len(lines, i + 1);
    }
}

/// Law: compilation is deterministic. Every result of `compile` is tied
/// to `compile_model` of the text alone, so two compilations of one text
/// yield structurally equal grammars.
pub proof fn lemma_compile_deterministic(
    doc: Seq<char>,
    g1: crate::grammar::GrammarModel,
    g2: crate::grammar::GrammarModel,
)
    requires
        compile_model(doc) == Result::<crate::grammar::GrammarModel, UsageError>::Ok(g1),
        compile_model(doc) == Result::<crate::grammar::GrammarModel, UsageError>::Ok(g2),
    ensures
        g1 == g2,
{
}

/// Compiles a usage text: the grammar of its `Usage:` alternatives and
/// its options section, or the first `UsageError`. Compilation is a pure
/// function of the text: the same text always yields the same grammar.
pub fn compile(doc: &str) -> (r: Result<Grammar, UsageError>)
    ensures
        match r {
            Result::Ok(g) => compile_model(doc@) == Result::<
                crate::grammar::GrammarModel,
                UsageError,
            >::Ok(g.model()),
            Result::Err(e) => compile_model(doc@) == Result::<
                crate::grammar::GrammarModel,
                UsageError,
            >::Err(e),
        },
{
    let dc = to_chars(doc);
    let lines = split_on_x(&dc, '\n');
    match usage_line_idx_x(&lines, 0) {
        Option::None => Result::Err(UsageError::NoUsageSection),
        Option::Some(u) => {
            proof {
                lemma_usage_line_idx(sv(lines@), 0);
            }
            let _ln = lines.len();
            let srcs = usage_srcs_x(&lines, u);
            if srcs.len() == 0 {
                proof {
                    assert(usage_srcs(sv(lines@), u as int).len() == 0);
                }
                Result::Err(UsageError::NoUsageSection)
            } else {
                let taken = take_nonblank_x(&lines, u + 1);
                proof {
                    lemma_take_nonblank_len(sv(lines@), u + 1);
                }
                let entries = option_entries_x(&lines, u + 1 + taken.len(), None);
                let nodecls: Vec<FlagDecl> = Vec::new();
                proof {
                    assert(flags_model(nodecls@) =~= Seq::<FlagDeclModel>::empty());
                }
                match build_decls_x(&entries, 0, nodecls) {
                    Result::Err(e) => Result::Err(e),
                    Result::Ok(decls0) => {
                        match build_alts_x(&srcs, 0, decls0) {
                            Result::Err(e) => Result::Err(e),
                            Result::Ok((branches, decls1)) => {
                                let pattern = Pattern::Alternation(branches);
                                let nosyms: Vec<Symbol> = Vec::new();
                                proof {
                                    assert(symbols_model(nosyms@) =~= Seq::<SymbolModel>::empty());
                                }
                                let syms0 = collect_syms_x(&pattern, false, nosyms);
                                let syms = finalize_syms_x(syms0, &decls1, 0);
                                Result::Ok(
                                    Grammar { pattern: pattern, flags: decls1, symbols: syms },
                                )
                            },
                        }
                    },
                }
            }
        },
    }
}

} // verus!
