//! The compiled form of a usage text: the pattern tree, the declared
//! flags, and the table of declared symbols; and the two error kinds.

use vstd::prelude::*;

use crate::pattern::{Pattern, PatternModel};

verus! {

/// The usage text itself is malformed; compilation never partially
/// succeeds.
#[derive(Debug, PartialEq, Eq, Structural)]
pub enum UsageError {
    /// No line of the text holds a `Usage:` heading.
    NoUsageSection,
    /// A `[` or `(` group is never closed, or a `]`, `)` or `|` stands
    /// outside any group.
    UnbalancedGroup,
    /// An option description line declares no flag.
    BadOptionLine,
    /// One flag is declared twice in the options section.
    DuplicateFlag,
    /// A flag is used with an inline argument although it is declared to
    /// take none.
    ArityMismatch,
    /// A short-flag cluster holds an argument-taking letter before its
    /// last position, so the letters after it cannot be flags.
    AmbiguousCluster,
}

/// A concrete argument vector does not satisfy the usage text.
#[derive(Debug, PartialEq, Eq, Structural)]
pub enum MatchError {
    /// The argument vector names a flag that the usage text never
    /// declares.
    UnknownFlag,
    /// A flag that takes an argument is last in the argument vector, with
    /// no token left to consume.
    MissingValue,
    /// A `--name=value` form names a flag that takes no argument.
    UnexpectedValue,
    /// No usage alternative matches the whole argument vector.
    Unmatched,
}

/// One declared flag: its canonical name (the long form where one exists),
/// its synonyms, whether it consumes an argument, and its declared default.
#[derive(Debug)]
pub struct FlagDecl {
    /// Canonical name with its dashes, `"--output"` or `"-v"`.
    pub name: Vec<char>,
    /// The short letter, without its dash.
    pub short: Option<char>,
    /// The long name with its dashes.
    pub long: Option<Vec<char>>,
    pub takes_arg: bool,
    pub default: Option<Vec<char>>,
}

/// The mathematical value of a `FlagDecl`.
pub struct FlagDeclModel {
    pub name: Seq<char>,
    pub short: Option<char>,
    pub long: Option<Seq<char>>,
    pub takes_arg: bool,
    pub default: Option<Seq<char>>,
}

impl FlagDecl {
    pub open spec fn model(self) -> FlagDeclModel {
        FlagDeclModel {
            name: self.name@,
            short: self.short,
            long: match self.long {
                Option::Some(l) => Option::Some(l@),
                Option::None => Option::None,
            },
            takes_arg: self.takes_arg,
            default: match self.default {
                Option::Some(d) => Option::Some(d@),
                Option::None => Option::None,
            },
        }
    }
}

/// The views of a vector of flag declarations.
pub open spec fn flags_model(v: Seq<FlagDecl>) -> Seq<FlagDeclModel> {
    v.map_values(|f: FlagDecl| f.model())
}

/// One declared symbol: a command, positional or flag name, whether its
/// occurrences carry a value, whether it may be bound more than once, and
/// its declared default.
#[derive(Debug)]
pub struct Symbol {
    pub name: Vec<char>,
    pub valued: bool,
    pub repeated: bool,
    pub default: Option<Vec<char>>,
}

/// The mathematical value of a `Symbol`.
pub struct SymbolModel {
    pub name: Seq<char>,
    pub valued: bool,
    pub repeated: bool,
    pub default: Option<Seq<char>>,
}

impl Symbol {
    pub open spec fn model(self) -> SymbolModel {
        SymbolModel {
            name: self.name@,
            valued: self.valued,
            repeated: self.repeated,
            default: match self.default {
                Option::Some(d) => Option::Some(d@),
                Option::None => Option::None,
            },
        }
    }
}

/// The views of a vector of symbols.
pub open spec fn symbols_model(v: Seq<Symbol>) -> Seq<SymbolModel> {
    v.map_values(|s: Symbol| s.model())
}

/// A compiled usage text.
#[derive(Debug)]
pub struct Grammar {
    /// The top-level pattern: one `Alternation` branch per usage
    /// alternative.
    pub pattern: Pattern,
    /// Every declared flag, from the options section and from the usage
    /// patterns themselves.
    pub flags: Vec<FlagDecl>,
    /// Every declared symbol, each of which the value map will hold.
    pub symbols: Vec<Symbol>,
}

/// The mathematical value of a `Grammar`.
pub struct GrammarModel {
    pub pattern: PatternModel,
    pub flags: Seq<FlagDeclModel>,
    pub symbols: Seq<SymbolModel>,
}

impl Grammar {
    pub open spec fn model(self) -> GrammarModel {
        GrammarModel {
            pattern: self.pattern.model(),
            flags: flags_model(self.flags@),
            symbols: symbols_model(self.symbols@),
        }
    }
}

/// The index of the declaration whose long name is `name`, or `-1`.
pub open spec fn find_long(flags: Seq<FlagDeclModel>, name: Seq<char>, i: int) -> int
    decreases flags.len() - i,
{
    if i < 0 || i >= flags.len() {
        -1
    } else if flags[i].long == Option::Some(name) {
        i
    } else {
        find_long(flags, name, i + 1)
    }
}

/// The index of the declaration whose short letter is `c`, or `-1`.
pub open spec fn find_short(flags: Seq<FlagDeclModel>, c: char, i: int) -> int
    decreases flags.len() - i,
{
    if i < 0 || i >= flags.len() {
        -1
    } else if flags[i].short == Option::Some(c) {
        i
    } else {
        find_short(flags, c, i + 1)
    }
}

/// `find_long` returns `-1` or a position in `[i, flags.len())` whose
/// declaration has the long name sought; likewise `find_short`.
pub proof fn lemma_find_flag(flags: Seq<FlagDeclModel>, name: Seq<char>, c: char, i: int)
    requires
        0 <= i,
    ensures
        find_long(flags, name, i) == -1 || (i <= find_long(flags, name, i) < flags.len()
            && flags[find_long(flags, name, i)].long == Option::Some(name)),
        find_short(flags, c, i) == -1 || (i <= find_short(flags, c, i) < flags.len()
            && flags[find_short(flags, c, i)].short == Option::Some(c)),
    decreases flags.len() - i,
{
    if i < flags.len() {
        lemma_find_flag(flags, name, c, i + 1);
    }
}

/// Mirrors `find_long` on a vector.
pub fn find_long_x(flags: &Vec<FlagDecl>, name: &Vec<char>, from: usize) -> (r: Option<usize>)
    ensures
        match r {
            Option::Some(j) => find_long(flags_model(flags@), name@, from as int) == j,
            Option::None => find_long(flags_model(flags@), name@, from as int) == -1,
        },
    decreases flags@.len() - from,
{
    if from >= flags.len() {
        None
    } else {
        let hit = match &flags[from].long {
            Option::Some(l) => crate::text::seq_eq(l, name),
            Option::None => false,
        };
        if hit {
            Some(from)
        } else {
            find_long_x(flags, name, from + 1)
        }
    }
}

/// Mirrors `find_short` on a vector.
pub fn find_short_x(flags: &Vec<FlagDecl>, c: char, from: usize) -> (r: Option<usize>)
    ensures
        match r {
            Option::Some(j) => find_short(flags_model(flags@), c, from as int) == j,
            Option::None => find_short(flags_model(flags@), c, from as int) == -1,
        },
    decreases flags@.len() - from,
{
    if from >= flags.len() {
        None
    } else {
        let hit = match flags[from].short {
            Option::Some(s) => s == c,
            Option::None => false,
        };
        if hit {
            Some(from)
        } else {
            find_short_x(flags, c, from + 1)
        }
    }
}

} // verus!
