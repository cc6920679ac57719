//! The lexical layer of the language: character classes, blanks and comments,
//! words, numbers, and the errors of a parse.
//!
//! Positions count characters from the start of the input.

use crate::text::{decimal, decimal_text};
use vstd::prelude::*;
use vstd::string::StringExecFns;

verus! {

/// The productions of the grammar that an error can name.
#[derive(Debug, Clone, Copy, PartialEq, Eq)]
pub enum Rule {
    /// The whole input: one expression and nothing after it.
    Source,
    /// `with` environment `;` body.
    WithExpr,
    /// A literal, path, list, attribute set or reference.
    AtomicExpr,
    /// A run of decimal digits.
    Integer,
    /// A double-quoted string.
    String,
    /// `${` expression `}` inside a string.
    Interpolation,
    /// A path literal.
    Path,
    /// `<` name `>`.
    SearchPath,
    /// `rec`? `{` bindings `}`.
    AttrSet,
    /// dotted path `=` expression `;`.
    Binding,
    /// `inherit` (`(` scope `)`)? names `;`.
    InheritBinding,
}

/// What went wrong.
#[derive(Debug, Clone, Copy, PartialEq, Eq)]
pub enum ParseErrorKind {
    /// The input does not match the rule at the position.
    Syntax,
    /// An integer literal above `i64::MAX`.
    IntegerOverflow,
    /// A dotted path runs through a name that is bound to something other
    /// than an attribute set.
    AttributePathConflict,
    /// A `~/` path where no home directory is known.
    NoHomeDirectory,
}

/// A parse error: what went wrong, in which rule, and where.
#[derive(Debug, Clone, Copy, PartialEq, Eq)]
pub struct ParseError {
    pub kind: ParseErrorKind,
    pub rule: Rule,
    pub position: usize,
}

/// View of a [`ParseError`], with the position as a mathematical integer.
pub struct Failure {
    pub kind: ParseErrorKind,
    pub rule: Rule,
    pub position: int,
}

impl View for ParseError {
    type V = Failure;

    open spec fn view(&self) -> Failure {
        Failure { kind: self.kind, rule: self.rule, position: self.position as int }
    }
}

/// A syntax error in `rule` at `position`.
pub open spec fn syntax(rule: Rule, position: int) -> Failure {
    Failure { kind: ParseErrorKind::Syntax, rule, position }
}

/// What matching a construct at a position gives.
pub enum Parsed<T> {
    /// The construct was matched: its value and the position after it.
    Done { value: T, next: int },
    /// The input is not in the language.
    Failed { error: Failure },
    /// A part matched without consuming input. No parse ends so; the case
    /// keeps the definition of the grammar well founded.
    Stalled,
}

/// `r`, where it ends beyond `from` and within `s`.
pub open spec fn progress<T>(s: Seq<char>, from: int, r: Parsed<T>) -> Parsed<T> {
    match r {
        Parsed::Done { value, next } => if from < next <= s.len() {
            r
        } else {
            Parsed::Stalled
        },
        _ => r,
    }
}

/// The failure of a part as the failure of the construct around it.
pub open spec fn carry<T, U>(r: Parsed<T>) -> Parsed<U> {
    match r {
        Parsed::Failed { error } => Parsed::Failed { error },
        _ => Parsed::Stalled,
    }
}

/// The classes of characters that words are made of.
#[derive(Debug, Clone, Copy, PartialEq, Eq)]
pub enum CharClass {
    /// `0` to `9`.
    Digit,
    /// Letters, digits and `_`.
    Ident,
    /// Letters, digits and `. _ - + /`.
    Path,
}

/// A decimal digit.
pub open spec fn is_digit(c: char) -> bool {
    48 <= c as u32 <= 57
}

/// A letter of the Latin alphabet without accents.
pub open spec fn is_letter(c: char) -> bool {
    65 <= c as u32 <= 90 || 97 <= c as u32 <= 122
}

/// A character that can begin a name: a letter or `_`.
pub open spec fn is_ident_start(c: char) -> bool {
    is_letter(c) || c == '_'
}

/// A blank: space, tab, line feed or carriage return.
pub open spec fn is_space(c: char) -> bool {
    c == ' ' || c == '\t' || c == '\n' || c == '\r'
}

/// Whether `c` belongs to `class`.
pub open spec fn in_class(class: CharClass, c: char) -> bool {
    match class {
        CharClass::Digit => is_digit(c),
        CharClass::Ident => is_ident_start(c) || is_digit(c),
        CharClass::Path => is_letter(c) || is_digit(c) || c == '.' || c == '_' || c == '-' || c
            == '+' || c == '/',
    }
}

/// The end of the longest run of characters of `class` that starts at `pos`.
pub open spec fn scan(s: Seq<char>, pos: int, class: CharClass) -> int
    decreases s.len() - pos,
{
    if 0 <= pos < s.len() && in_class(class, s[pos]) {
        scan(s, pos + 1, class)
    } else {
        pos
    }
}

/// The first position at or after `pos` that holds neither a blank nor part
/// of a comment. A comment runs from `#` to the end of its line; `in_comment`
/// says whether `pos` lies inside one.
pub open spec fn skip_trivia(s: Seq<char>, pos: int, in_comment: bool) -> int
    decreases s.len() - pos,
{
    if 0 <= pos < s.len() {
        if in_comment {
            skip_trivia(s, pos + 1, s[pos] != '\n')
        } else if is_space(s[pos]) {
            skip_trivia(s, pos + 1, false)
        } else if s[pos] == '#' {
            skip_trivia(s, pos + 1, true)
        } else {
            pos
        }
    } else {
        pos
    }
}

/// The first position at or after `pos` where an expression can start.
pub open spec fn skip_blank(s: Seq<char>, pos: int) -> int {
    skip_trivia(s, pos, false)
}

/// Whether the name that `pos` is in goes on at `pos`: with a character of a
/// name, or with a dot that a name follows.
pub open spec fn in_dotted(s: Seq<char>, pos: int) -> bool {
    0 <= pos < s.len() && (in_class(CharClass::Ident, s[pos]) || (s[pos] == '.' && pos + 1
        < s.len() && is_ident_start(s[pos + 1])))
}

/// The end of the dotted name that starts at `pos`: names joined by single
/// dots, as far as they go.
pub open spec fn dotted_end(s: Seq<char>, pos: int) -> int
    decreases s.len() - pos,
{
    if in_dotted(s, pos) {
        dotted_end(s, pos + 1)
    } else {
        pos
    }
}

/// Whether a character at `pos` belongs to the literal text of a string: all
/// but `"`, `$`, `'` and a backslash before `"`.
pub open spec fn is_plain(s: Seq<char>, pos: int) -> bool {
    0 <= pos < s.len() && s[pos] != '"' && s[pos] != '$' && s[pos] != '\'' && !(s[pos] == '\\'
        && pos + 1 < s.len() && s[pos + 1] == '"')
}

/// The end of the run of literal text that `pos` is in.
pub open spec fn plain_end(s: Seq<char>, pos: int) -> int
    decreases s.len() - pos,
{
    if is_plain(s, pos) {
        plain_end(s, pos + 1)
    } else {
        pos
    }
}

/// Whether `word` stands in `s` at `pos`.
pub open spec fn has_at(s: Seq<char>, pos: int, word: Seq<char>) -> bool {
    0 <= pos && pos + word.len() <= s.len() && s.subrange(pos, pos + word.len()) == word
}

/// The number that a run of decimal digits denotes.
pub open spec fn decimal_value(digits: Seq<char>) -> nat
    decreases digits.len(),
{
    if digits.len() == 0 {
        0
    } else {
        (decimal_value(digits.drop_last()) * 10 + (digits.last() as u32 - 48)) as nat
    }
}

/// A run ends between its start and the end of the text, holds only
/// characters of its class and cannot be made longer.
pub proof fn lemma_scan_bounds(s: Seq<char>, pos: int, class: CharClass)
    requires
        0 <= pos <= s.len(),
    ensures
        pos <= scan(s, pos, class) <= s.len(),
        forall|i: int| pos <= i < scan(s, pos, class) ==> in_class(class, #[trigger] s[i]),
        scan(s, pos, class) < s.len() ==> !in_class(class, s[scan(s, pos, class)]),
    decreases s.len() - pos,
{
    if pos < s.len() && in_class(class, s[pos]) {
        lemma_scan_bounds(s, pos + 1, class);
    }
}

/// Blanks and comments end between their start and the end of the text.
pub proof fn lemma_skip_trivia_bounds(s: Seq<char>, pos: int, in_comment: bool)
    requires
        0 <= pos <= s.len(),
    ensures
        pos <= skip_trivia(s, pos, in_comment) <= s.len(),
    decreases s.len() - pos,
{
    if pos < s.len() {
        if in_comment {
            lemma_skip_trivia_bounds(s, pos + 1, s[pos] != '\n');
        } else if is_space(s[pos]) {
            lemma_skip_trivia_bounds(s, pos + 1, false);
        } else if s[pos] == '#' {
            lemma_skip_trivia_bounds(s, pos + 1, true);
        }
    }
}

/// A dotted name ends between its start and the end of the text, and after
/// its start where there is one.
pub proof fn lemma_dotted_end_bounds(s: Seq<char>, pos: int)
    requires
        0 <= pos <= s.len(),
    ensures
        pos <= dotted_end(s, pos) <= s.len(),
        in_dotted(s, pos) ==> pos < dotted_end(s, pos),
    decreases s.len() - pos,
{
    if in_dotted(s, pos) {
        lemma_dotted_end_bounds(s, pos + 1);
    }
}

/// Plain text ends between its start and the end of the text.
pub proof fn lemma_plain_end_bounds(s: Seq<char>, pos: int)
    requires
        0 <= pos <= s.len(),
    ensures
        pos <= plain_end(s, pos) <= s.len(),
    decreases s.len() - pos,
{
    if is_plain(s, pos) {
        lemma_plain_end_bounds(s, pos + 1);
    }
}

/// A longer run of digits denotes no smaller a number.
pub proof fn lemma_decimal_value_grows(digits: Seq<char>, k: int)
    requires
        0 <= k <= digits.len(),
        forall|i: int| 0 <= i < digits.len() ==> is_digit(#[trigger] digits[i]),
    ensures
        decimal_value(digits.take(k)) <= decimal_value(digits),
    decreases digits.len() - k,
{
    if k < digits.len() {
        assert(digits.take(k + 1).drop_last() =~= digits.take(k));
        lemma_decimal_value_grows(digits, k + 1);
    } else {
        assert(digits.take(k) =~= digits);
    }
}

/// Whether `c` is a decimal digit.
pub fn char_is_digit(c: char) -> (b: bool)
    ensures
        b == is_digit(c),
{
    let n = c as u32;
    48 <= n && n <= 57
}

/// Whether `c` can begin a name.
pub fn char_is_ident_start(c: char) -> (b: bool)
    ensures
        b == is_ident_start(c),
{
    let n = c as u32;
    (65 <= n && n <= 90) || (97 <= n && n <= 122) || c == '_'
}

/// Whether `c` is a blank.
pub fn char_is_space(c: char) -> (b: bool)
    ensures
        b == is_space(c),
{
    c == ' ' || c == '\t' || c == '\n' || c == '\r'
}

/// Whether `c` belongs to `class`.
pub fn char_in_class(class: CharClass, c: char) -> (b: bool)
    ensures
        b == in_class(class, c),
{
    match class {
        CharClass::Digit => char_is_digit(c),
        CharClass::Ident => char_is_ident_start(c) || char_is_digit(c),
        CharClass::Path => {
            let n = c as u32;
            (65 <= n && n <= 90) || (97 <= n && n <= 122) || char_is_digit(c) || c == '.' || c
                == '_' || c == '-' || c == '+' || c == '/'
        },
    }
}

/// Finds the end of the run of characters of `class` that starts at `pos`.
pub fn scan_class(chars: &Vec<char>, pos: usize, class: CharClass) -> (end: usize)
    requires
        pos <= chars@.len(),
    ensures
        end == scan(chars@, pos as int, class),
        pos <= end <= chars@.len(),
{
    let mut i = pos;
    while i < chars.len() && char_in_class(class, chars[i])
        invariant
            pos <= i <= chars@.len(),
            scan(chars@, pos as int, class) == scan(chars@, i as int, class),
        decreases chars@.len() - i,
    {
        i += 1;
    }
    i
}

/// Skips blanks and comments from `pos` on.
pub fn skip_blanks(chars: &Vec<char>, pos: usize) -> (end: usize)
    requires
        pos <= chars@.len(),
    ensures
        end == skip_blank(chars@, pos as int),
        pos <= end <= chars@.len(),
{
    let mut i = pos;
    let mut in_comment = false;
    while i < chars.len() && (in_comment || char_is_space(chars[i]) || chars[i] == '#')
        invariant
            pos <= i <= chars@.len(),
            skip_trivia(chars@, pos as int, false) == skip_trivia(chars@, i as int, in_comment),
        decreases chars@.len() - i,
    {
        if in_comment {
            in_comment = chars[i] != '\n';
        } else if chars[i] == '#' {
            in_comment = true;
        }
        i += 1;
    }
    i
}

/// Finds the end of the dotted name that starts at `pos`.
pub fn scan_dotted(chars: &Vec<char>, pos: usize) -> (end: usize)
    requires
        pos <= chars@.len(),
    ensures
        end == dotted_end(chars@, pos as int),
        pos <= end <= chars@.len(),
{
    let mut i = pos;
    while i < chars.len() && (char_in_class(CharClass::Ident, chars[i]) || (chars[i] == '.' && i
        + 1 < chars.len() && char_is_ident_start(chars[i + 1])))
        invariant
            pos <= i <= chars@.len(),
            dotted_end(chars@, pos as int) == dotted_end(chars@, i as int),
        decreases chars@.len() - i,
    {
        i += 1;
    }
    i
}

/// Whether the character at `pos` is literal text of a string.
pub fn plain_at(chars: &Vec<char>, pos: usize) -> (b: bool)
    ensures
        b == is_plain(chars@, pos as int),
{
    if pos >= chars.len() {
        return false;
    }
    let c = chars[pos];
    if c == '"' || c == '$' || c == '\'' {
        false
    } else if c == '\\' {
        !(pos + 1 < chars.len() && chars[pos + 1] == '"')
    } else {
        true
    }
}

/// Finds the end of the run of literal text that `pos` is in.
pub fn scan_plain(chars: &Vec<char>, pos: usize) -> (end: usize)
    requires
        pos <= chars@.len(),
    ensures
        end == plain_end(chars@, pos as int),
        pos <= end <= chars@.len(),
{
    let mut i = pos;
    while i < chars.len() && plain_at(chars, i)
        invariant
            pos <= i <= chars@.len(),
            plain_end(chars@, pos as int) == plain_end(chars@, i as int),
        decreases chars@.len() - i,
    {
        i += 1;
    }
    i
}

/// Whether `word` stands in `chars` at `pos`.
pub fn word_at(chars: &Vec<char>, pos: usize, word: &str) -> (b: bool)
    requires
        pos <= chars@.len(),
    ensures
        b == has_at(chars@, pos as int, word@),
{
    let n = word.unicode_len();
    let len = chars.len();
    if n > len - pos {
        return false;
    }
    let mut i: usize = 0;
    while i < n
        invariant
            i <= n,
            n == word@.len(),
            len == chars@.len(),
            pos + n <= len,
            forall|j: int| 0 <= j < i ==> chars@[pos + j] == word@[j],
        decreases n - i,
    {
        if chars[pos + i] != word.get_char(i) {
            assert(chars@.subrange(pos as int, pos + n)[i as int] != word@[i as int]);
            return false;
        }
        i += 1;
    }
    assert(chars@.subrange(pos as int, pos + n) =~= word@);
    true
}

/// Whether the characters from `from` to `to` are exactly `word`.
pub fn word_is(chars: &Vec<char>, from: usize, to: usize, word: &str) -> (b: bool)
    requires
        from <= to <= chars@.len(),
    ensures
        b == (chars@.subrange(from as int, to as int) == word@),
{
    let n = word.unicode_len();
    if n != to - from {
        return false;
    }
    word_at(chars, from, word)
}

/// Reads the integer that the digits from `from` to `to` denote, if it is at
/// most `i64::MAX`.
pub fn read_integer(chars: &Vec<char>, from: usize, to: usize) -> (r: Option<i64>)
    requires
        from <= to <= chars@.len(),
        forall|i: int| from <= i < to ==> is_digit(#[trigger] chars@[i]),
    ensures
        match r {
            Some(v) => v == decimal_value(chars@.subrange(from as int, to as int)),
            None => decimal_value(chars@.subrange(from as int, to as int)) > i64::MAX,
        },
{
    let ghost digits = chars@.subrange(from as int, to as int);
    let mut value: i64 = 0;
    let mut i = from;
    while i < to
        invariant
            from <= i <= to <= chars@.len(),
            digits == chars@.subrange(from as int, to as int),
            forall|k: int| from <= k < to ==> is_digit(#[trigger] chars@[k]),
            0 <= value,
            value == decimal_value(digits.take(i - from)),
        decreases to - i,
    {
        let d = (chars[i] as u32 - 48) as i64;
        proof {
            assert(digits.take(i - from + 1).drop_last() =~= digits.take(i - from));
            assert(digits.take(i - from + 1).last() == chars@[i as int]);
            assert forall|k: int| 0 <= k < digits.len() implies is_digit(#[trigger] digits[k]) by {
                assert(digits[k] == chars@[from + k]);
            }
            lemma_decimal_value_grows(digits, i - from + 1);
        }
        if value > (i64::MAX - d) / 10 {
            return None;
        }
        value = value * 10 + d;
        i += 1;
    }
    assert(digits.take(to - from) =~= digits);
    Some(value)
}

/// The name of a rule, as messages show it.
pub open spec fn rule_name(rule: Rule) -> Seq<char> {
    match rule {
        Rule::Source => "source"@,
        Rule::WithExpr => "with_expr"@,
        Rule::AtomicExpr => "atomic_expr"@,
        Rule::Integer => "integer"@,
        Rule::String => "string"@,
        Rule::Interpolation => "interpolation"@,
        Rule::Path => "path"@,
        Rule::SearchPath => "search_path"@,
        Rule::AttrSet => "attrset"@,
        Rule::Binding => "binding"@,
        Rule::InheritBinding => "inherit_binding"@,
    }
}

/// What a kind of error is called in messages.
pub open spec fn kind_name(kind: ParseErrorKind) -> Seq<char> {
    match kind {
        ParseErrorKind::Syntax => "syntax error"@,
        ParseErrorKind::IntegerOverflow => "integer literal out of range"@,
        ParseErrorKind::AttributePathConflict => "attribute path conflicts with an existing value"@,
        ParseErrorKind::NoHomeDirectory => "home directory not known"@,
    }
}

/// The message of an error: its kind, its position and its rule.
pub open spec fn message_of(error: Failure) -> Seq<char> {
    kind_name(error.kind) + " at position "@ + decimal(error.position as nat) + " in rule "@
        + rule_name(error.rule)
}

impl Rule {
    /// The name of the rule.
    pub fn name(&self) -> (s: &'static str)
        ensures
            s@ == rule_name(*self),
    {
        match self {
            Rule::Source => "source",
            Rule::WithExpr => "with_expr",
            Rule::AtomicExpr => "atomic_expr",
            Rule::Integer => "integer",
            Rule::String => "string",
            Rule::Interpolation => "interpolation",
            Rule::Path => "path",
            Rule::SearchPath => "search_path",
            Rule::AttrSet => "attrset",
            Rule::Binding => "binding",
            Rule::InheritBinding => "inherit_binding",
        }
    }
}

impl ParseErrorKind {
    /// What the kind of error is called.
    pub fn name(&self) -> (s: &'static str)
        ensures
            s@ == kind_name(*self),
    {
        match self {
            ParseErrorKind::Syntax => "syntax error",
            ParseErrorKind::IntegerOverflow => "integer literal out of range",
            ParseErrorKind::AttributePathConflict => "attribute path conflicts with an existing value",
            ParseErrorKind::NoHomeDirectory => "home directory not known",
        }
    }
}

impl ParseError {
    /// The message of the error.
    pub fn message(&self) -> (s: String)
        ensures
            s@ == message_of(self@),
    {
        let mut s = String::from_str(self.kind.name());
        s.append(" at position ");
        s.append(decimal_text(self.position).as_str());
        s.append(" in rule ");
        s.append(self.rule.name());
        s
    }
}

} // verus!
