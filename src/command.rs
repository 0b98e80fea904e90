use vstd::prelude::*;
use crate::canvas::{Point, string_of};

verus! {

/// One line of input, parsed.
#[derive(PartialEq, Eq, PartialOrd, Ord, Debug, Hash)]
pub enum Command {
    Line { from: Point, to: Point },
    Rectangle { p1: Point, p2: Point },
    Circle { p: Point, r: usize },
    Canvas { width: usize, height: usize },
    Char(char),
    Read(String),
    Save(String),
    Info,
    Show,
    Quit,
}

/// A command as a mathematical value: paths are character sequences.
pub enum CommandModel {
    Line { from: Point, to: Point },
    Rectangle { p1: Point, p2: Point },
    Circle { p: Point, r: usize },
    Canvas { width: usize, height: usize },
    Char(char),
    Read(Seq<char>),
    Save(Seq<char>),
    Info,
    Show,
    Quit,
}

impl View for Command {
    type V = CommandModel;

    open spec fn view(&self) -> CommandModel {
        match self {
            Command::Line { from, to } => CommandModel::Line { from: *from, to: *to },
            Command::Rectangle { p1, p2 } => CommandModel::Rectangle { p1: *p1, p2: *p2 },
            Command::Circle { p, r } => CommandModel::Circle { p: *p, r: *r },
            Command::Canvas { width, height } => CommandModel::Canvas {
                width: *width,
                height: *height,
            },
            Command::Char(c) => CommandModel::Char(*c),
            Command::Read(path) => CommandModel::Read(path@),
            Command::Save(path) => CommandModel::Save(path@),
            Command::Info => CommandModel::Info,
            Command::Show => CommandModel::Show,
            Command::Quit => CommandModel::Quit,
        }
    }
}

/// Why an argument was refused.
#[derive(Copy, Clone, PartialEq, Eq, Structural, Debug)]
pub enum ArgError {
    /// Not an unsigned decimal number.
    NotANumber,
    /// A decimal number too large for `usize`.
    TooLarge,
    /// Not exactly one character.
    NotOneChar,
}

/// Why a line is not a command.
#[derive(Copy, Clone, PartialEq, Eq, Structural, Debug)]
pub enum ParseError {
    /// Nothing but whitespace.
    EmptyInput,
    /// An unknown verb, or a known verb with the wrong number of arguments.
    UnknownCommand,
    /// A known verb with a malformed argument.
    InvalidArgument(ArgError),
}

/// A parse result with the command seen as its model.
pub open spec fn result_view(r: Result<Command, ParseError>) -> Result<CommandModel, ParseError> {
    match r {
        Ok(c) => Ok(c@),
        Err(e) => Err(e),
    }
}

/// Unicode's White_Space characters.
pub open spec fn is_space(c: char) -> bool {
    let u = c as u32;
    ||| 0x09 <= u <= 0x0d
    ||| u == 0x20
    ||| u == 0x85
    ||| u == 0xa0
    ||| u == 0x1680
    ||| 0x2000 <= u <= 0x200a
    ||| u == 0x2028
    ||| u == 0x2029
    ||| u == 0x202f
    ||| u == 0x205f
    ||| u == 0x3000
}

/// The length of the run of non-space characters that starts `s`.
pub open spec fn word_len(s: Seq<char>) -> nat
    decreases s.len(),
{
    if s.len() == 0 || is_space(s[0]) {
        0
    } else {
        1 + word_len(s.drop_first())
    }
}

/// A word fits in its text, and a text that starts with a non-space starts with a word.
proof fn lemma_word_len(s: Seq<char>)
    ensures
        word_len(s) <= s.len(),
        s.len() > 0 && !is_space(s[0]) ==> word_len(s) >= 1,
    decreases s.len(),
{
    if s.len() > 0 && !is_space(s[0]) {
        lemma_word_len(s.drop_first());
    }
}

/// The maximal runs of non-space characters of `s`, in order.
pub open spec fn tokens(s: Seq<char>) -> Seq<Seq<char>>
    decreases s.len(),
    via tokens_decreases
{
    if s.len() == 0 {
        Seq::empty()
    } else if is_space(s[0]) {
        tokens(s.drop_first())
    } else {
        seq![s.take(word_len(s) as int)] + tokens(s.skip(word_len(s) as int))
    }
}

/// Each step of `tokens` consumes at least one character.
#[via_fn]
proof fn tokens_decreases(s: Seq<char>) {
    lemma_word_len(s);
}

/// A decimal digit.
pub open spec fn is_digit(c: char) -> bool {
    '0' <= c <= '9'
}

/// The value of a sequence of decimal digits.
pub open spec fn decimal(d: Seq<char>) -> nat
    decreases d.len(),
{
    if d.len() == 0 {
        0
    } else {
        decimal(d.drop_last()) * 10 + ((d.last() as u32) - ('0' as u32)) as nat
    }
}

/// The digits of a number: an optional leading `+` is dropped.
pub open spec fn unsigned_digits(t: Seq<char>) -> Seq<char> {
    if t.len() > 0 && t[0] == '+' {
        t.drop_first()
    } else {
        t
    }
}

/// An argument read as a `usize`: optionally `+`, then one or more decimal digits.
pub open spec fn parse_num(t: Seq<char>) -> Result<usize, ArgError> {
    let d = unsigned_digits(t);
    if d.len() == 0 || exists|i: int| 0 <= i < d.len() && !is_digit(#[trigger] d[i]) {
        Err(ArgError::NotANumber)
    } else if decimal(d) > usize::MAX {
        Err(ArgError::TooLarge)
    } else {
        Ok(decimal(d) as usize)
    }
}

/// An argument read as a single character.
pub open spec fn parse_char(t: Seq<char>) -> Result<char, ArgError> {
    if t.len() == 1 {
        Ok(t[0])
    } else {
        Err(ArgError::NotOneChar)
    }
}

/// The first error among the numeric arguments `args`, in order.
pub open spec fn first_bad(args: Seq<Seq<char>>) -> Option<ArgError>
    decreases args.len(),
{
    if args.len() == 0 {
        None
    } else {
        match parse_num(args[0]) {
            Err(e) => Some(e),
            Ok(_) => first_bad(args.drop_first()),
        }
    }
}

/// The value of the numeric argument `args[i]`, when it has one.
pub open spec fn num_at(args: Seq<Seq<char>>, i: int) -> usize {
    match parse_num(args[i]) {
        Ok(n) => n,
        Err(_) => 0,
    }
}

/// `cmd` when every argument is a number, else the first argument's error.
pub open spec fn numeric(args: Seq<Seq<char>>, cmd: CommandModel) -> Result<CommandModel, ParseError> {
    match first_bad(args) {
        Some(e) => Err(ParseError::InvalidArgument(e)),
        None => Ok(cmd),
    }
}

/// A command from its upper-cased verb and its arguments.
pub open spec fn parse_words(verb: Seq<char>, args: Seq<Seq<char>>) -> Result<CommandModel, ParseError> {
    let n = args.len();
    if verb == "LINE"@ && n == 4 {
        numeric(
            args,
            CommandModel::Line {
                from: Point(num_at(args, 0), num_at(args, 1)),
                to: Point(num_at(args, 2), num_at(args, 3)),
            },
        )
    } else if (verb == "RECT"@ || verb == "RECTANGLE"@) && n == 4 {
        numeric(
            args,
            CommandModel::Rectangle {
                p1: Point(num_at(args, 0), num_at(args, 1)),
                p2: Point(num_at(args, 2), num_at(args, 3)),
            },
        )
    } else if (verb == "CIRC"@ || verb == "CIRCLE"@) && n == 3 {
        numeric(
            args,
            CommandModel::Circle { p: Point(num_at(args, 0), num_at(args, 1)), r: num_at(args, 2) },
        )
    } else if (verb == "CANV"@ || verb == "CANVAS"@) && n == 2 {
        numeric(args, CommandModel::Canvas { width: num_at(args, 0), height: num_at(args, 1) })
    } else if verb == "CHAR"@ && n == 1 {
        match parse_char(args[0]) {
            Ok(c) => Ok(CommandModel::Char(c)),
            Err(e) => Err(ParseError::InvalidArgument(e)),
        }
    } else if verb == "READ"@ && n == 1 {
        Ok(CommandModel::Read(args[0]))
    } else if verb == "SAVE"@ && n == 1 {
        Ok(CommandModel::Save(args[0]))
    } else if verb == "INFO"@ && n == 0 {
        Ok(CommandModel::Info)
    } else if verb == "SHOW"@ && n == 0 {
        Ok(CommandModel::Show)
    } else if verb == "QUIT"@ && n == 0 {
        Ok(CommandModel::Quit)
    } else {
        Err(ParseError::UnknownCommand)
    }
}

/// What an outside function makes of a word: its upper-case form.
pub uninterp spec fn upper_of(s: Seq<char>) -> Seq<char>;

/// A whole line, parsed: its first token upper-cased is the verb, the
/// other tokens are the arguments, kept as they are.
pub open spec fn parse_line(s: Seq<char>) -> Result<CommandModel, ParseError> {
    let toks = tokens(s);
    if toks.len() == 0 {
        Err(ParseError::EmptyInput)
    } else {
        parse_words(upper_of(toks[0]), toks.drop_first())
    }
}

/// The character sequences of a list of strings.
pub open spec fn views_of(v: Seq<String>) -> Seq<Seq<char>> {
    v.map_values(|s: String| s@)
}

/// Relies on `str::to_uppercase`: the upper-case form depends on the characters alone.
#[verifier::external_body]
fn uppercase(s: &str) -> (r: String)
    ensures
        r@ == upper_of(s@),
{
    s.to_uppercase()
}

/// Decides `is_space`.
fn space(c: char) -> (r: bool)
    ensures
        r == is_space(c),
{
    let u = c as u32;
    (0x09 <= u && u <= 0x0d) || u == 0x20 || u == 0x85 || u == 0xa0 || u == 0x1680 || (0x2000 <= u
        && u <= 0x200a) || u == 0x2028 || u == 0x2029 || u == 0x202f || u == 0x205f || u == 0x3000
}

/// The characters of `s`, in order.
fn chars_of(s: &str) -> (r: Vec<char>)
    ensures
        r@ == s@,
{
    let n = s.unicode_len();
    let mut out: Vec<char> = Vec::new();
    let mut i: usize = 0;
    while i < n
        invariant
            n == s@.len(),
            i <= n,
            out@ == s@.take(i as int),
        decreases n - i,
    {
        out.push(s.get_char(i));
        i = i + 1;
        assert(out@ =~= s@.take(i as int));
    }
    assert(s@.take(n as int) =~= s@);
    out
}

/// Splits `chars` into its maximal runs of non-space characters.
fn split_words(chars: &Vec<char>) -> (r: Vec<String>)
    ensures
        views_of(r@) == tokens(chars@),
{
    let ghost s = chars@;
    let n = chars.len();
    let mut out: Vec<String> = Vec::new();
    let mut i: usize = 0;
    assert(s.skip(0) =~= s);
    assert(views_of(out@) =~= Seq::<Seq<char>>::empty());
    assert(views_of(out@) + tokens(s.skip(0)) =~= tokens(s));
    while i < n
        invariant
            s == chars@,
            n == s.len(),
            i <= n,
            views_of(out@) + tokens(s.skip(i as int)) == tokens(s),
        decreases n - i,
    {
        if space(chars[i]) {
            assert(s.skip(i as int).drop_first() =~= s.skip(i + 1));
            i = i + 1;
        } else {
            let mut word: Vec<char> = Vec::new();
            let mut j: usize = i;
            while j < n && !space(chars[j])
                invariant
                    s == chars@,
                    n == s.len(),
                    i <= j <= n,
                    word@ == s.subrange(i as int, j as int),
                    word_len(s.skip(i as int)) == (j - i) + word_len(s.skip(j as int)),
                decreases n - j,
            {
                assert(s.skip(j as int).drop_first() =~= s.skip(j + 1));
                word.push(chars[j]);
                j = j + 1;
                assert(word@ =~= s.subrange(i as int, j as int));
            }
            let ghost rest = s.skip(i as int);
            proof {
                assert(word_len(s.skip(j as int)) == 0);
                assert(rest.take(word_len(rest) as int) =~= s.subrange(i as int, j as int));
                assert(rest.skip(word_len(rest) as int) =~= s.skip(j as int));
            }
            let text = string_of(&word);
            let ghost before = out@;
            out.push(text);
            proof {
                assert(out@ == before.push(text));
                assert(views_of(out@) =~= views_of(before) + seq![word@]);
            }
            i = j;
        }
    }
    assert(s.skip(n as int) =~= Seq::<char>::empty());
    assert(views_of(out@) + tokens(s.skip(n as int)) =~= views_of(out@));
    out
}

/// A prefix of a number's digits has no greater value.
proof fn lemma_decimal_prefix(d: Seq<char>, k: int)
    requires
        0 <= k <= d.len(),
    ensures
        decimal(d.take(k)) <= decimal(d),
    decreases d.len(),
{
    if k < d.len() {
        lemma_decimal_prefix(d.drop_last(), k);
        assert(d.drop_last().take(k) =~= d.take(k));
    } else {
        assert(d.take(k) =~= d);
    }
}

/// Reads `t` as a `usize`, as `parse_num` says.
fn try_parse_usize(t: &String) -> (r: Result<usize, ArgError>)
    ensures
        r == parse_num(t@),
{
    let c = chars_of(t.as_str());
    let n = c.len();
    let start: usize = if n > 0 && c[0] == '+' { 1 } else { 0 };
    let ghost d = unsigned_digits(t@);
    assert(d =~= c@.skip(start as int));
    if start == n {
        return Err(ArgError::NotANumber);
    }
    let mut i: usize = start;
    while i < n
        invariant
            c@ == t@,
            n == c@.len(),
            d == c@.skip(start as int),
            d == unsigned_digits(t@),
            start <= i <= n,
            forall|k: int| 0 <= k < i - start ==> is_digit(#[trigger] d[k]),
        decreases n - i,
    {
        if !('0' <= c[i] && c[i] <= '9') {
            assert(d[i - start] == c@[i as int]);
            assert(!is_digit(d[i - start]));
            assert(exists|k: int| 0 <= k < d.len() && !is_digit(#[trigger] d[k]));
            return Err(ArgError::NotANumber);
        }
        i = i + 1;
    }
    let mut acc: u128 = 0;
    let mut i: usize = start;
    assert(d.take(0) =~= Seq::<char>::empty());
    while i < n
        invariant
            c@ == t@,
            n == c@.len(),
            d == c@.skip(start as int),
            d == unsigned_digits(t@),
            start <= i <= n,
            forall|k: int| 0 <= k < d.len() ==> is_digit(#[trigger] d[k]),
            acc == decimal(d.take(i - start)),
            acc <= usize::MAX,
        decreases n - i,
    {
        assert(d[i - start] == c@[i as int]);
        assert(is_digit(d[i - start]));
        let digit = (c[i] as u32 - '0' as u32) as u128;
        let ghost k = i - start;
        assert(d.take(k + 1).drop_last() =~= d.take(k));
        assert(d.take(k + 1).last() == d[k]);
        assert(decimal(d.take(k + 1)) == decimal(d.take(k)) * 10 + digit);
        acc = acc * 10 + digit;
        i = i + 1;
        if acc > usize::MAX as u128 {
            proof {
                lemma_decimal_prefix(d, i - start);
                assert(!(exists|j: int| 0 <= j < d.len() && !is_digit(#[trigger] d[j])));
            }
            return Err(ArgError::TooLarge);
        }
    }
    assert(d.take(n - start) =~= d);
    assert(!(exists|j: int| 0 <= j < d.len() && !is_digit(#[trigger] d[j])));
    Ok(acc as usize)
}

/// Reads `t` as a single character, as `parse_char` says.
fn parse_single(t: &String) -> (r: Result<char, ArgError>)
    ensures
        r == parse_char(t@),
{
    let c = chars_of(t.as_str());
    if c.len() == 1 {
        Ok(c[0])
    } else {
        Err(ArgError::NotOneChar)
    }
}

/// Reads every argument as a number, stopping at the first that is not one.
fn parse_numbers(args: &Vec<String>) -> (r: Result<Vec<usize>, ArgError>)
    ensures
        match r {
            Ok(v) => first_bad(views_of(args@)) is None && v@.len() == args@.len() && forall|i: int|
                0 <= i < v@.len() ==> v@[i] == #[trigger] num_at(views_of(args@), i),
            Err(e) => first_bad(views_of(args@)) == Some(e),
        },
{
    let ghost a = views_of(args@);
    let mut out: Vec<usize> = Vec::new();
    let mut i: usize = 0;
    assert(a.skip(0) =~= a);
    while i < args.len()
        invariant
            a == views_of(args@),
            i <= args@.len(),
            out@.len() == i,
            forall|k: int| 0 <= k < i ==> out@[k] == #[trigger] num_at(a, k),
            first_bad(a) == first_bad(a.skip(i as int)),
        decreases args.len() - i,
    {
        assert(a.skip(i as int)[0] == args@[i as int]@);
        assert(a.skip(i as int).drop_first() =~= a.skip(i + 1));
        match try_parse_usize(&args[i]) {
            Ok(v) => {
                out.push(v);
            },
            Err(e) => {
                return Err(e);
            },
        }
        i = i + 1;
    }
    assert(a.skip(i as int) =~= Seq::<Seq<char>>::empty());
    Ok(out)
}

/// Whether `v` is the word `w`.
fn is_word(v: &str, w: &str) -> (r: bool)
    ensures
        r == (v@ == w@),
{
    let a = v.to_owned();
    let b = w.to_owned();
    a.eq(&b)
}

impl Command {
    /// The command named by `verb`, already upper-cased, with the arguments
    /// `args`: numbers for drawing and resizing, one character for the pen,
    /// a path for reading and saving, none for the rest.
    pub fn from_words(verb: &str, args: &Vec<String>) -> (r: Result<Command, ParseError>)
        ensures
            result_view(r) == parse_words(verb@, views_of(args@)),
    {
        let ghost a = views_of(args@);
        let n = args.len();
        if is_word(verb, "LINE") && n == 4 {
            let v = match parse_numbers(args) {
                Ok(v) => v,
                Err(e) => {
                    return Err(ParseError::InvalidArgument(e));
                },
            };
            assert(v@[0] == num_at(a, 0) && v@[1] == num_at(a, 1));
            assert(v@[2] == num_at(a, 2) && v@[3] == num_at(a, 3));
            Ok(Command::Line { from: Point(v[0], v[1]), to: Point(v[2], v[3]) })
        } else if (is_word(verb, "RECT") || is_word(verb, "RECTANGLE")) && n == 4 {
            let v = match parse_numbers(args) {
                Ok(v) => v,
                Err(e) => {
                    return Err(ParseError::InvalidArgument(e));
                },
            };
            assert(v@[0] == num_at(a, 0) && v@[1] == num_at(a, 1));
            assert(v@[2] == num_at(a, 2) && v@[3] == num_at(a, 3));
            Ok(Command::Rectangle { p1: Point(v[0], v[1]), p2: Point(v[2], v[3]) })
        } else if (is_word(verb, "CIRC") || is_word(verb, "CIRCLE")) && n == 3 {
            let v = match parse_numbers(args) {
                Ok(v) => v,
                Err(e) => {
                    return Err(ParseError::InvalidArgument(e));
                },
            };
            assert(v@[0] == num_at(a, 0) && v@[1] == num_at(a, 1));
            assert(v@[2] == num_at(a, 2));
            Ok(Command::Circle { p: Point(v[0], v[1]), r: v[2] })
        } else if (is_word(verb, "CANV") || is_word(verb, "CANVAS")) && n == 2 {
            let v = match parse_numbers(args) {
                Ok(v) => v,
                Err(e) => {
                    return Err(ParseError::InvalidArgument(e));
                },
            };
            assert(v@[0] == num_at(a, 0) && v@[1] == num_at(a, 1));
            Ok(Command::Canvas { width: v[0], height: v[1] })
        } else if is_word(verb, "CHAR") && n == 1 {
            match parse_single(&args[0]) {
                Ok(c) => Ok(Command::Char(c)),
                Err(e) => Err(ParseError::InvalidArgument(e)),
            }
        } else if is_word(verb, "READ") && n == 1 {
            Ok(Command::Read(args[0].clone()))
        } else if is_word(verb, "SAVE") && n == 1 {
            Ok(Command::Save(args[0].clone()))
        } else if is_word(verb, "INFO") && n == 0 {
            Ok(Command::Info)
        } else if is_word(verb, "SHOW") && n == 0 {
            Ok(Command::Show)
        } else if is_word(verb, "QUIT") && n == 0 {
            Ok(Command::Quit)
        } else {
            Err(ParseError::UnknownCommand)
        }
    }

    /// Parses one line of input: the tokens are the maximal runs of
    /// non-space characters, the first of them upper-cased is the verb and
    /// the rest are the arguments, kept as they are.
    pub fn from(input: String) -> (r: Result<Command, ParseError>)
        ensures
            result_view(r) == parse_line(input@),
    {
        let chars = chars_of(input.as_str());
        let mut words = split_words(&chars);
        if words.len() == 0 {
            return Err(ParseError::EmptyInput);
        }
        let ghost toks = views_of(words@);
        let first = words.remove(0);
        assert(views_of(words@) =~= toks.drop_first());
        let verb = uppercase(first.as_str());
        Command::from_words(verb.as_str(), &words)
    }
}

/// A word that ends inside `a` is not lengthened by what follows `a`.
proof fn lemma_word_len_before_space(a: Seq<char>, b: Seq<char>)
    requires
        a.len() > 0,
        is_space(a.last()),
    ensures
        word_len(a + b) == word_len(a),
        word_len(a) < a.len(),
    decreases a.len(),
{
    assert((a + b)[0] == a[0]);
    if !is_space(a[0]) {
        assert((a + b).drop_first() =~= a.drop_first() + b);
        lemma_word_len_before_space(a.drop_first(), b);
    }
}

/// Splitting a text right after a whitespace character splits its tokens.
proof fn lemma_tokens_split(a: Seq<char>, b: Seq<char>)
    requires
        a.len() == 0 || is_space(a.last()),
    ensures
        tokens(a + b) == tokens(a) + tokens(b),
    decreases a.len(),
{
    if a.len() == 0 {
        assert(a + b =~= b);
        assert(tokens(a) + tokens(b) =~= tokens(b));
    } else {
        assert((a + b)[0] == a[0]);
        if is_space(a[0]) {
            assert((a + b).drop_first() =~= a.drop_first() + b);
            lemma_tokens_split(a.drop_first(), b);
        } else {
            lemma_word_len_before_space(a, b);
            lemma_word_len(a);
            let k = word_len(a) as int;
            assert((a + b).take(k) =~= a.take(k));
            assert((a + b).skip(k) =~= a.skip(k) + b);
            lemma_tokens_split(a.skip(k), b);
            assert(tokens(a + b) =~= tokens(a) + tokens(b));
        }
    }
}

/// A whitespace character at the end does not lengthen the first word.
proof fn lemma_word_len_trailing(s: Seq<char>, c: char)
    requires
        is_space(c),
    ensures
        word_len(s + seq![c]) == word_len(s),
    decreases s.len(),
{
    if s.len() > 0 {
        assert((s + seq![c])[0] == s[0]);
        assert((s + seq![c]).drop_first() =~= s.drop_first() + seq![c]);
        lemma_word_len_trailing(s.drop_first(), c);
    } else {
        assert(s + seq![c] =~= seq![c]);
    }
}

/// A whitespace character at the end of a text adds no token.
proof fn lemma_tokens_trailing(s: Seq<char>, c: char)
    requires
        is_space(c),
    ensures
        tokens(s + seq![c]) == tokens(s),
    decreases s.len(),
{
    if s.len() == 0 {
        assert(s + seq![c] =~= seq![c]);
        assert(seq![c][0] == c);
        assert(seq![c].drop_first() =~= Seq::<char>::empty());
        assert(tokens(seq![c]) == tokens(Seq::<char>::empty()));
        assert(tokens(s) =~= Seq::<Seq<char>>::empty());
    } else {
        assert((s + seq![c])[0] == s[0]);
        if is_space(s[0]) {
            assert((s + seq![c]).drop_first() =~= s.drop_first() + seq![c]);
            lemma_tokens_trailing(s.drop_first(), c);
            assert(tokens(s + seq![c]) == tokens(s.drop_first() + seq![c]));
        } else {
            lemma_word_len_trailing(s, c);
            lemma_word_len(s);
            let k = word_len(s) as int;
            assert((s + seq![c]).take(k) =~= s.take(k));
            assert((s + seq![c]).skip(k) =~= s.skip(k) + seq![c]);
            lemma_tokens_trailing(s.skip(k), c);
            assert(tokens(s + seq![c]) == seq![s.take(k)] + tokens(s.skip(k) + seq![c]));
        }
    }
}

/// Whitespace at either end of a line adds no token.
pub proof fn lemma_outer_space(s: Seq<char>, c: char)
    requires
        is_space(c),
    ensures
        tokens(seq![c] + s) == tokens(s),
        tokens(s + seq![c]) == tokens(s),
{
    assert((seq![c] + s)[0] == c);
    assert((seq![c] + s).drop_first() =~= s);
    lemma_tokens_trailing(s, c);
}

/// Which whitespace character separates two parts of a line does not
/// change its tokens.
pub proof fn lemma_space_kind(a: Seq<char>, b: Seq<char>, c: char, d: char)
    requires
        is_space(c),
        is_space(d),
    ensures
        tokens(a + seq![c] + b) == tokens(a + seq![d] + b),
{
    lemma_tokens_split(a + seq![c], b);
    lemma_tokens_split(a + seq![d], b);
    lemma_tokens_trailing(a, c);
    lemma_tokens_trailing(a, d);
}

/// A run of whitespace separates as one whitespace character does.
pub proof fn lemma_space_run(a: Seq<char>, b: Seq<char>, c: char, d: char)
    requires
        is_space(c),
        is_space(d),
    ensures
        tokens(a + seq![c] + b) == tokens(a + seq![c, d] + b),
{
    lemma_tokens_split(a + seq![c], b);
    assert(a + seq![c, d] + b =~= (a + seq![c]) + seq![d] + b);
    assert((a + seq![c]) + seq![d] == a + seq![c, d]);
    lemma_tokens_split(a + seq![c, d], b);
    lemma_tokens_trailing(a + seq![c], d);
}

/// Two lines with the same arguments and verbs of the same upper-case form
/// parse alike: spacing and the verb's case do not matter.
pub proof fn lemma_same_words(a: Seq<char>, b: Seq<char>)
    requires
        tokens(a).len() == tokens(b).len(),
        tokens(a).len() > 0 ==> upper_of(tokens(a)[0]) == upper_of(tokens(b)[0]),
        tokens(a).drop_first() == tokens(b).drop_first(),
    ensures
        parse_line(a) == parse_line(b),
{
}

/// A verb and a number of arguments that some command has.
pub open spec fn known_form(verb: Seq<char>, n: nat) -> bool {
    ||| (verb == "LINE"@ && n == 4)
    ||| ((verb == "RECT"@ || verb == "RECTANGLE"@) && n == 4)
    ||| ((verb == "CIRC"@ || verb == "CIRCLE"@) && n == 3)
    ||| ((verb == "CANV"@ || verb == "CANVAS"@) && n == 2)
    ||| ((verb == "CHAR"@ || verb == "READ"@ || verb == "SAVE"@) && n == 1)
    ||| ((verb == "INFO"@ || verb == "SHOW"@ || verb == "QUIT"@) && n == 0)
}

/// An unknown verb, or a known verb with the wrong number of arguments,
/// is refused as an unknown command.
pub proof fn lemma_unknown_refused(s: Seq<char>)
    requires
        tokens(s).len() > 0,
        !known_form(upper_of(tokens(s)[0]), (tokens(s).len() - 1) as nat),
    ensures
        parse_line(s) == Err::<CommandModel, ParseError>(ParseError::UnknownCommand),
{
}

} // verus!
