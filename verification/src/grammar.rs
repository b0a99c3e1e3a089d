//! The grammar of a problem's text. Its lines are recognised by regular
//! expressions of the `regex` crate; the library decides what the captured
//! pieces mean: the sense of the objective, the relation and the two sides
//! of a constraint, the terms of a linear expression and the variables of a
//! bound list. Numbers stay text here: they are read by the caller.

use vstd::prelude::*;

use crate::errors::ParseError;
use crate::problem_parser::{classify_relation_line, index_reading, parse_variable_index, relation_line_role, LineRole};
use crate::problem::{relation_from_symbol, relation_of_text, Relation, Sense};

verus! {

#[verifier::external_type_specification]
#[verifier::external_body]
pub struct ExRegex(regex::Regex);

/// A regular expression compiled by the `regex` crate, with the pattern it
/// was compiled from. Only `compile` builds one.
pub struct Pattern {
    regex: regex::Regex,
    source: String,
}

impl Pattern {
    /// The pattern the expression was compiled from.
    pub closed spec fn source(&self) -> Seq<char> {
        self.source@
    }
}

/// Whether `regex::Regex::new` accepts the pattern with the crate's default
/// options: it refuses an invalid pattern and one whose automaton would
/// exceed its default size limit.
pub uninterp spec fn regex_compiles(pattern: Seq<char>) -> bool;

/// Compiles a pattern with `regex::Regex::new`, with the crate's default
/// options. Whether the crate accepts the pattern depends on the pattern
/// alone and is given a name; a refused pattern gives `None`.
#[verifier::external_body]
fn compile(source: &str) -> (pattern: Option<Pattern>)
    ensures
        pattern is Some <==> regex_compiles(source@),
        pattern matches Some(p) ==> p.source() == source@,
{
    match regex::Regex::new(source) {
        Ok(regex) => Some(Pattern { regex, source: source.to_string() }),
        Err(_) => None,
    }
}

/// Whether `regex::Regex::is_match` finds a match of the pattern anywhere in
/// the text.
pub uninterp spec fn regex_is_match(pattern: Seq<char>, haystack: Seq<char>) -> bool;

/// The capture groups of the first match of the pattern in the text, as
/// `regex::Regex::captures` finds it: group 0 is the whole match, and a
/// group that took no part in the match is `None`.
pub uninterp spec fn regex_captures(pattern: Seq<char>, haystack: Seq<char>) -> Option<
    Seq<Option<Seq<char>>>,
>;

/// The capture groups of each successive non-overlapping match of the
/// pattern in the text, as `regex::Regex::captures_iter` yields them.
pub uninterp spec fn regex_captures_all(pattern: Seq<char>, haystack: Seq<char>) -> Seq<
    Seq<Option<Seq<char>>>,
>;

/// The pieces of the text between the matches of the pattern, as
/// `regex::Regex::split` yields them.
pub uninterp spec fn regex_split(pattern: Seq<char>, haystack: Seq<char>) -> Seq<Seq<char>>;

/// The text of a capture group, where it took part in the match.
pub open spec fn group_view(group: Option<String>) -> Option<Seq<char>> {
    match group {
        Some(text) => Some(text@),
        None => None,
    }
}

/// The texts of the capture groups of a match.
pub open spec fn groups_view(groups: Seq<Option<String>>) -> Seq<Option<Seq<char>>> {
    groups.map_values(|group: Option<String>| group_view(group))
}

/// Calls `regex::Regex::is_match`. The result depends on the pattern and
/// the text alone, and is given a name.
#[verifier::external_body]
fn is_match(pattern: &Pattern, haystack: &str) -> (found: bool)
    ensures
        found == regex_is_match(pattern.source(), haystack@),
{
    pattern.regex.is_match(haystack)
}

/// Calls `regex::Regex::captures` and copies the text of each group. The
/// result depends on the pattern and the text alone, and is given a name.
#[verifier::external_body]
fn captures(pattern: &Pattern, haystack: &str) -> (groups: Option<Vec<Option<String>>>)
    ensures
        match groups {
            Some(groups) => regex_captures(pattern.source(), haystack@) == Some(
                groups_view(groups@),
            ),
            None => regex_captures(pattern.source(), haystack@) is None,
        },
{
    let found = pattern.regex.captures(haystack)?;
    let mut groups = Vec::new();
    for group in found.iter() {
        groups.push(match group { Some(m) => Some(m.as_str().to_string()), None => None });
    }
    Some(groups)
}

/// Calls `regex::Regex::captures_iter` and copies the text of each group of
/// each match. The result depends on the pattern and the text alone, and is
/// given a name.
#[verifier::external_body]
fn captures_all(pattern: &Pattern, haystack: &str) -> (matches: Vec<Vec<Option<String>>>)
    ensures
        matches@.len() == regex_captures_all(pattern.source(), haystack@).len(),
        forall|k: int|
            0 <= k < matches@.len() ==> groups_view(#[trigger] matches@[k]@)
                == regex_captures_all(pattern.source(), haystack@)[k],
{
    let mut matches = Vec::new();
    for found in pattern.regex.captures_iter(haystack) {
        let mut groups = Vec::new();
        for group in found.iter() {
            groups.push(match group { Some(m) => Some(m.as_str().to_string()), None => None });
        }
        matches.push(groups);
    }
    matches
}

/// Calls `regex::Regex::split` and copies each piece. The result depends on
/// the pattern and the text alone, and is given a name.
#[verifier::external_body]
fn split(pattern: &Pattern, haystack: &str) -> (pieces: Vec<String>)
    ensures
        pieces@.len() == regex_split(pattern.source(), haystack@).len(),
        forall|k: int|
            0 <= k < pieces@.len() ==> #[trigger] pieces@[k]@ == regex_split(
                pattern.source(),
                haystack@,
            )[k],
{
    let mut pieces = Vec::new();
    for piece in pattern.regex.split(haystack) {
        pieces.push(piece.to_string());
    }
    pieces
}

/// The characters with the Unicode `White_Space` property, which is what
/// `str::trim` removes.
pub open spec fn is_white_space(c: char) -> bool {
    ||| '\u{9}' <= c <= '\u{d}'
    ||| c == ' '
    ||| c == '\u{85}'
    ||| c == '\u{a0}'
    ||| c == '\u{1680}'
    ||| '\u{2000}' <= c <= '\u{200a}'
    ||| c == '\u{2028}'
    ||| c == '\u{2029}'
    ||| c == '\u{202f}'
    ||| c == '\u{205f}'
    ||| c == '\u{3000}'
}

/// The text without its leading white space.
pub open spec fn trim_start(text: Seq<char>) -> Seq<char>
    decreases text.len(),
{
    if text.len() > 0 && is_white_space(text[0]) {
        trim_start(text.drop_first())
    } else {
        text
    }
}

/// The text without its trailing white space.
pub open spec fn trim_end(text: Seq<char>) -> Seq<char>
    decreases text.len(),
{
    if text.len() > 0 && is_white_space(text.last()) {
        trim_end(text.drop_last())
    } else {
        text
    }
}

/// The text without white space at either end.
pub open spec fn trimmed(text: Seq<char>) -> Seq<char> {
    trim_end(trim_start(text))
}

/// The text holds nothing but white space.
pub open spec fn is_blank(text: Seq<char>) -> bool {
    forall|i: int| 0 <= i < text.len() ==> is_white_space(#[trigger] text[i])
}

fn white_space(c: char) -> (found: bool)
    ensures
        found == is_white_space(c),
{
    ('\u{9}' <= c && c <= '\u{d}') || c == ' ' || c == '\u{85}' || c == '\u{a0}' || c
        == '\u{1680}' || ('\u{2000}' <= c && c <= '\u{200a}') || c == '\u{2028}' || c
        == '\u{2029}' || c == '\u{202f}' || c == '\u{205f}' || c == '\u{3000}'
}

/// The text with the white space at either end removed, as `str::trim`
/// removes it.
pub fn trim(text: &str) -> (result: String)
    ensures
        result@ == trimmed(text@),
{
    let length = text.unicode_len();
    let mut start: usize = 0;
    assert(text@.subrange(0, length as int) =~= text@);
    while start < length && white_space(text.get_char(start))
        invariant
            start <= length,
            length == text@.len(),
            trim_start(text@) == trim_start(text@.subrange(start as int, length as int)),
        decreases length - start,
    {
        assert(text@.subrange(start as int, length as int).drop_first() =~= text@.subrange(
            start + 1,
            length as int,
        ));
        start = start + 1;
    }
    assert(trim_start(text@) == text@.subrange(start as int, length as int));
    let mut end: usize = length;
    while end > start && white_space(text.get_char(end - 1))
        invariant
            start <= end <= length,
            length == text@.len(),
            trim_start(text@) == text@.subrange(start as int, length as int),
            trimmed(text@) == trim_end(text@.subrange(start as int, end as int)),
        decreases end - start,
    {
        assert(text@.subrange(start as int, end as int).drop_last() =~= text@.subrange(
            start as int,
            end - 1,
        ));
        end = end - 1;
    }
    String::from_str(text.substring_char(start, end))
}

/// Whether the text holds nothing but white space.
fn blank(text: &str) -> (found: bool)
    ensures
        found == is_blank(text@),
{
    let length = text.unicode_len();
    let mut index: usize = 0;
    while index < length
        invariant
            index <= length,
            length == text@.len(),
            forall|i: int| 0 <= i < index ==> is_white_space(#[trigger] text@[i]),
        decreases length - index,
    {
        if !white_space(text.get_char(index)) {
            return false;
        }
        index = index + 1;
    }
    true
}

/// Whether two texts are equal.
fn same_text(a: &str, b: &str) -> (same: bool)
    ensures
        same == (a@ == b@),
{
    let length = a.unicode_len();
    if length != b.unicode_len() {
        return false;
    }
    let mut index: usize = 0;
    while index < length
        invariant
            index <= length,
            length == a@.len(),
            length == b@.len(),
            forall|i: int| 0 <= i < index ==> a@[i] == b@[i],
        decreases length - index,
    {
        if a.get_char(index) != b.get_char(index) {
            return false;
        }
        index = index + 1;
    }
    assert(a@ =~= b@);
    true
}

/// Whether the text holds the character.
fn holds_char(text: &str, c: char) -> (found: bool)
    ensures
        found == text@.contains(c),
{
    let length = text.unicode_len();
    let mut index: usize = 0;
    while index < length
        invariant
            index <= length,
            length == text@.len(),
            forall|i: int| 0 <= i < index ==> text@[i] != c,
        decreases length - index,
    {
        if text.get_char(index) == c {
            assert(text@[index as int] == c);
            return true;
        }
        index = index + 1;
    }
    false
}

/// The text of capture group `i`, empty where the group took no part in the
/// match.
pub open spec fn group_text(groups: Seq<Option<Seq<char>>>, i: int) -> Seq<char> {
    if 0 <= i < groups.len() && groups[i] is Some {
        groups[i]->0
    } else {
        Seq::empty()
    }
}

fn group(groups: &Vec<Option<String>>, i: usize) -> (text: String)
    ensures
        text@ == group_text(groups_view(groups@), i as int),
{
    if i < groups.len() {
        match &groups[i] {
            Some(text) => text.clone(),
            None => String::new(),
        }
    } else {
        String::new()
    }
}

/// The word of the objective line names a maximisation: it is `max` in any
/// ASCII case.
pub open spec fn is_max_word(word: Seq<char>) -> bool {
    &&& word.len() == 3
    &&& (word[0] == 'm' || word[0] == 'M')
    &&& (word[1] == 'a' || word[1] == 'A')
    &&& (word[2] == 'x' || word[2] == 'X')
}

fn max_word(word: &str) -> (found: bool)
    ensures
        found == is_max_word(word@),
{
    if word.unicode_len() != 3 {
        return false;
    }
    let first = word.get_char(0);
    let second = word.get_char(1);
    let third = word.get_char(2);
    (first == 'm' || first == 'M') && (second == 'a' || second == 'A') && (third == 'x' || third
        == 'X')
}

/// The message for a first line that is not an objective.
pub open spec fn objective_message() -> Seq<char> {
    "a primeira linha deve ser um objetivo no formato 'max|min z = expressão'"@
}

/// The message for a line that is not a relation.
pub open spec fn invalid_relation_message(text: Seq<char>) -> Seq<char> {
    "relação inválida: \""@ + text + "\""@
}

/// The message for a strict inequality.
pub open spec fn strict_inequality_message() -> Seq<char> {
    "desigualdades estritas não são suportadas; use <= ou >="@
}

/// The sense that the word of the objective line names.
pub open spec fn sense_of_word(word: Seq<char>) -> Sense {
    if is_max_word(word) {
        Sense::Max
    } else {
        Sense::Min
    }
}

/// What reading the objective line gives: the sense and the text of the
/// expression, or the message of the error.
pub open spec fn objective_reading(text: Seq<char>) -> Result<(Sense, Seq<char>), Seq<char>> {
    match regex_captures(objective_pattern(), text) {
        None => Err(objective_message()),
        Some(groups) => Ok((sense_of_word(group_text(groups, 1)), group_text(groups, 2))),
    }
}

/// What reading a relation line gives: the left side without surrounding
/// white space, the relation and the text of the right side, or the message
/// of the error.
pub open spec fn relation_reading(text: Seq<char>) -> Result<
    (Seq<char>, Relation, Seq<char>),
    Seq<char>,
> {
    match regex_captures(relation_pattern(), text) {
        None => Err(invalid_relation_message(text)),
        Some(groups) => match symbol_reading(group_text(groups, 2)) {
            None => Err(invalid_relation_message(text)),
            Some(Err(message)) => Err(message),
            Some(Ok(relation)) => Ok(
                (trimmed(group_text(groups, 1)), relation, group_text(groups, 3)),
            ),
        },
    }
}

/// The pieces of a relation line: the left side without surrounding white
/// space, the relation, and the text of the right side.
#[derive(Clone, Debug, PartialEq, Eq)]
pub struct RelationParts {
    pub lhs: String,
    pub relation: Relation,
    pub rhs: String,
}

/// What the symbol of a relation line gives: the relation, or the message of
/// the error (`None` for a symbol that is no relation).
pub open spec fn symbol_reading(symbol: Seq<char>) -> Option<Result<Relation, Seq<char>>> {
    if symbol == "<"@ || symbol == ">"@ {
        Some(Err(strict_inequality_message()))
    } else if symbol == "<="@ || symbol == ">="@ || symbol == "="@ {
        Some(Ok(relation_of_text(symbol)))
    } else {
        None
    }
}

fn error_with_quote(prefix: &str, text: &str, line: usize) -> (error: ParseError)
    ensures
        error.line == Some(line),
        error.message@ == prefix@ + text@ + "\""@,
{
    let mut message = String::from_str(prefix);
    message.append(text);
    message.append("\"");
    ParseError { line: Some(line), message }
}

/// The index texts that the matches of a variable capture in a bound list.
pub open spec fn variable_indices(lhs: Seq<char>) -> Seq<Seq<char>> {
    regex_captures_all(variable_pattern(), lhs).map_values(
        |groups: Seq<Option<Seq<char>>>| group_text(groups, 1),
    )
}

/// Reading a list of indices in order: their values, or the message of the
/// first that cannot be read.
pub open spec fn index_readings(indices: Seq<Seq<char>>) -> Result<Seq<usize>, Seq<char>>
    decreases indices.len(),
{
    if indices.len() == 0 {
        Ok(Seq::empty())
    } else {
        match index_readings(indices.drop_last()) {
            Err(message) => Err(message),
            Ok(values) => match index_reading(indices.last()) {
                Err(message) => Err(message),
                Ok(value) => Ok(values.push(value)),
            },
        }
    }
}

proof fn lemma_readings_keep_error(indices: Seq<Seq<char>>, n: int)
    requires
        0 <= n <= indices.len(),
        index_readings(indices.take(n)) is Err,
    ensures
        index_readings(indices) == index_readings(indices.take(n)),
    decreases indices.len() - n,
{
    if n < indices.len() {
        assert(indices.drop_last().take(n) =~= indices.take(n));
        lemma_readings_keep_error(indices.drop_last(), n);
    } else {
        assert(indices.take(n) =~= indices);
    }
}

/// The message for a malformed linear expression.
pub open spec fn invalid_expression_message(expression: Seq<char>) -> Seq<char> {
    "expressão linear inválida: \""@ + expression + "\""@
}

/// The message for two terms without a sign between them.
pub open spec fn separator_message(expression: Seq<char>) -> Seq<char> {
    "termos devem ser separados por '+' ou '-': \""@ + expression + "\""@
}

/// The text between two matches: piece `k` of the split, or nothing.
pub open spec fn gap_text(pieces: Seq<Seq<char>>, k: int) -> Seq<char> {
    if 0 <= k < pieces.len() {
        pieces[k]
    } else {
        Seq::empty()
    }
}

/// Term `k` of an expression breaks it: text other than white space stands
/// before it, or it is not the first and has no sign.
pub open spec fn term_breaks(
    matches: Seq<Seq<Option<Seq<char>>>>,
    pieces: Seq<Seq<char>>,
    k: int,
) -> bool {
    ||| !is_blank(gap_text(pieces, k))
    ||| k > 0 && group_text(matches[k], 1).len() == 0
}

/// The first term from `k` on that breaks the expression, or the number of
/// terms when none does.
pub open spec fn first_break(
    matches: Seq<Seq<Option<Seq<char>>>>,
    pieces: Seq<Seq<char>>,
    k: nat,
) -> nat
    decreases matches.len() - k,
{
    if k >= matches.len() {
        matches.len()
    } else if term_breaks(matches, pieces, k as int) {
        k
    } else {
        first_break(matches, pieces, k + 1)
    }
}

proof fn lemma_first_break_skips(
    matches: Seq<Seq<Option<Seq<char>>>>,
    pieces: Seq<Seq<char>>,
    i: nat,
    k: nat,
)
    requires
        i <= k <= matches.len(),
        forall|j: int| i <= j < k ==> !term_breaks(matches, pieces, j),
    ensures
        first_break(matches, pieces, i) == first_break(matches, pieces, k),
    decreases k - i,
{
    if i < k {
        lemma_first_break_skips(matches, pieces, i + 1, k);
    }
}

/// A term of a linear expression as written: whether its sign is `-`, the
/// text of its coefficient (empty when it has none) and the text of its
/// variable's index.
#[derive(Clone, Debug, PartialEq, Eq)]
pub struct TermText {
    pub negative: bool,
    pub coefficient: String,
    pub variable: String,
}

/// The term is the one that a match's capture groups give.
pub open spec fn term_of_groups(term: TermText, groups: Seq<Option<Seq<char>>>) -> bool {
    &&& term.negative == (group_text(groups, 1) == "-"@)
    &&& term.coefficient@ == group_text(groups, 2)
    &&& term.variable@ == group_text(groups, 3)
}

/// The terms of an expression read before the first error, and that error.
#[derive(Clone, Debug, PartialEq, Eq)]
pub struct ExpressionScan {
    pub terms: Vec<TermText>,
    pub error: Option<ParseError>,
}

/// The texts of a sequence of strings.
pub open spec fn texts_view(texts: Seq<String>) -> Seq<Seq<char>> {
    texts.map_values(|text: String| text@)
}

fn piece(pieces: &Vec<String>, k: usize) -> (text: String)
    ensures
        text@ == gap_text(texts_view(pieces@), k as int),
{
    if k < pieces.len() {
        pieces[k].clone()
    } else {
        String::new()
    }
}

/// The objective line: `max` or `min` in any case, `z =` and an expression.
pub open spec fn objective_pattern() -> Seq<char> {
    "(?i)^(max|min)\\s+z\\s*=\\s*(.+?)\\s*$"@
}

/// A relation line: a left side, a relation symbol and a number.
pub open spec fn relation_pattern() -> Seq<char> {
    "^(.*?)\\s*(<=|>=|=|<|>)\\s*(-?(?:\\d+(?:\\.\\d*)?|\\.\\d+))\\s*$"@
}

/// A list of variables separated by commas, and nothing else.
pub open spec fn variable_list_pattern() -> Seq<char> {
    "^x_\\d+(?:\\s*,\\s*x_\\d+)*$"@
}

/// A variable, with its index captured.
pub open spec fn variable_pattern() -> Seq<char> {
    "x_(\\d+)"@
}

/// A term of a linear expression: a sign, a coefficient and a variable, the
/// first two optional.
pub open spec fn term_pattern() -> Seq<char> {
    "([+-]?)\\s*((?:\\d+(?:\\.\\d*)?|\\.\\d+)?)\\s*x_(\\d+)"@
}

/// The patterns of the grammar: objective, relation, variable list,
/// variable and term, in this order.
pub open spec fn grammar_patterns() -> Seq<Seq<char>> {
    seq![
        objective_pattern(),
        relation_pattern(),
        variable_list_pattern(),
        variable_pattern(),
        term_pattern(),
    ]
}

/// What a line of a problem's text holds.
#[derive(Clone, Debug, PartialEq, Eq)]
pub enum LineKind {
    /// Nothing but white space: the line is skipped.
    Blank,
    /// The objective: its sense and the text of its expression.
    Objective(Sense, String),
    /// A relation: a constraint or a bound list.
    Relation(RelationParts),
}

/// The compiled expressions of the grammar of a problem's text.
pub struct Grammar {
    objective: Pattern,
    relation: Pattern,
    variable_list: Pattern,
    variable: Pattern,
    term: Pattern,
}

impl Grammar {
    #[verifier::type_invariant]
    spec fn compiled_from_grammar(self) -> bool {
        &&& self.objective.source() == objective_pattern()
        &&& self.relation.source() == relation_pattern()
        &&& self.variable_list.source() == variable_list_pattern()
        &&& self.variable.source() == variable_pattern()
        &&& self.term.source() == term_pattern()
    }

    /// The patterns the grammar's expressions were compiled from: objective,
    /// relation, variable list, variable and term, in this order.
    pub closed spec fn patterns(&self) -> Seq<Seq<char>> {
        seq![
            self.objective.source(),
            self.relation.source(),
            self.variable_list.source(),
            self.variable.source(),
            self.term.source(),
        ]
    }

    /// Compiles the expressions of the grammar; `None` exactly when the
    /// `regex` crate refuses one of them.
    pub fn new() -> (grammar: Option<Grammar>)
        ensures
            grammar is Some <==> (regex_compiles(objective_pattern()) && regex_compiles(
                relation_pattern(),
            ) && regex_compiles(variable_list_pattern()) && regex_compiles(variable_pattern())
                && regex_compiles(term_pattern())),
            grammar matches Some(grammar) ==> grammar.patterns() == grammar_patterns(),
    {
        let objective = compile("(?i)^(max|min)\\s+z\\s*=\\s*(.+?)\\s*$")?;
        let relation = compile(
            "^(.*?)\\s*(<=|>=|=|<|>)\\s*(-?(?:\\d+(?:\\.\\d*)?|\\.\\d+))\\s*$",
        )?;
        let variable_list = compile("^x_\\d+(?:\\s*,\\s*x_\\d+)*$")?;
        let variable = compile("x_(\\d+)")?;
        let term = compile("([+-]?)\\s*((?:\\d+(?:\\.\\d*)?|\\.\\d+)?)\\s*x_(\\d+)")?;
        Some(Grammar { objective, relation, variable_list, variable, term })
    }

    /// Reads a line of a problem's text, without the white space around it.
    /// A blank line is skipped; the first line that is not blank is the
    /// objective, and every later one is a relation.
    pub fn read_line(&self, raw: &str, objective_read: bool, line: usize) -> (result: Result<
        LineKind,
        ParseError,
    >)
        ensures
            trimmed(raw@).len() == 0 ==> result matches Ok(LineKind::Blank),
            trimmed(raw@).len() > 0 && !objective_read ==> match objective_reading(
                trimmed(raw@),
            ) {
                Ok((sense, expression)) => result matches Ok(LineKind::Objective(read, text))
                    && read == sense && text@ == expression,
                Err(message) => result matches Err(error) && error.line == Some(line)
                    && error.message@ == message,
            },
            trimmed(raw@).len() > 0 && objective_read ==> match relation_reading(trimmed(raw@)) {
                Ok((lhs, relation, rhs)) => result matches Ok(LineKind::Relation(parts))
                    && parts.lhs@ == lhs && parts.relation == relation && parts.rhs@ == rhs,
                Err(message) => result matches Err(error) && error.line == Some(line)
                    && error.message@ == message,
            },
    {
        let text = trim(raw);
        if text.unicode_len() == 0 {
            return Ok(LineKind::Blank);
        }
        if !objective_read {
            match self.objective_line(text.as_str(), line) {
                Ok((sense, expression)) => Ok(LineKind::Objective(sense, expression)),
                Err(error) => Err(error),
            }
        } else {
            match self.relation_line(text.as_str(), line) {
                Ok(parts) => Ok(LineKind::Relation(parts)),
                Err(error) => Err(error),
            }
        }
    }

    /// Reads the objective line: the sense, and the text of the expression
    /// to optimise. A line that does not match is an error.
    pub fn objective_line(&self, text: &str, line: usize) -> (result: Result<
        (Sense, String),
        ParseError,
    >)
        ensures
            match objective_reading(text@) {
                Ok((sense, expression)) => result matches Ok(read) && read.0 == sense && read.1@
                    == expression,
                Err(message) => result matches Err(error) && error.line == Some(line)
                    && error.message@ == message,
            },
    {
        proof {
            use_type_invariant(self);
        }
        match captures(&self.objective, text) {
            None => {
                proof {
                    reveal_strlit(
                        "a primeira linha deve ser um objetivo no formato 'max|min z = expressão'",
                    );
                }
                Err(
                    ParseError::at(
                        line,
                        "a primeira linha deve ser um objetivo no formato 'max|min z = expressão'",
                    ),
                )
            },
            Some(groups) => {
                let word = group(&groups, 1);
                let sense = if max_word(word.as_str()) {
                    Sense::Max
                } else {
                    Sense::Min
                };
                Ok((sense, group(&groups, 2)))
            },
        }
    }

    /// Splits a relation line into its left side, relation and right side.
    /// A line that does not match, and a strict inequality, are errors.
    pub fn relation_line(&self, text: &str, line: usize) -> (result: Result<
        RelationParts,
        ParseError,
    >)
        ensures
            match relation_reading(text@) {
                Ok((lhs, relation, rhs)) => result matches Ok(parts) && parts.lhs@ == lhs
                    && parts.relation == relation && parts.rhs@ == rhs,
                Err(message) => result matches Err(error) && error.line == Some(line)
                    && error.message@ == message,
            },
    {
        proof {
            use_type_invariant(self);
            reveal_strlit("relação inválida: \"");
            reveal_strlit("\"");
        }
        let groups = match captures(&self.relation, text) {
            None => {
                return Err(error_with_quote("relação inválida: \"", text, line));
            },
            Some(groups) => groups,
        };
        let symbol = group(&groups, 2);
        if same_text(symbol.as_str(), "<") || same_text(symbol.as_str(), ">") {
            proof {
                reveal_strlit("desigualdades estritas não são suportadas; use <= ou >=");
            }
            return Err(
                ParseError::at(line, "desigualdades estritas não são suportadas; use <= ou >="),
            );
        }
        if !(same_text(symbol.as_str(), "<=") || same_text(symbol.as_str(), ">=") || same_text(
            symbol.as_str(),
            "=",
        )) {
            return Err(error_with_quote("relação inválida: \"", text, line));
        }
        let relation = relation_from_symbol(symbol.as_str());
        let side = group(&groups, 1);
        Ok(RelationParts { lhs: trim(side.as_str()), relation, rhs: group(&groups, 3) })
    }

    /// Decides what a relation line declares, given whether its right side
    /// is zero within the tolerance and whether a bound line was already
    /// read.
    pub fn line_role(
        &self,
        parts: &RelationParts,
        rhs_is_zero: bool,
        in_bounds: bool,
        line: usize,
    ) -> (result: Result<LineRole, ParseError>)
        ensures
            match relation_line_role(
                in_bounds,
                parts.lhs@.contains(','),
                parts.relation,
                rhs_is_zero,
                regex_is_match(variable_list_pattern(), parts.lhs@),
            ) {
                Ok(role) => result == Ok::<LineRole, ParseError>(role),
                Err(message) => result matches Err(error) && error.line == Some(line)
                    && error.message@ == message,
            },
    {
        let has_comma = holds_char(parts.lhs.as_str(), ',');
        let is_list = self.is_variable_list(parts.lhs.as_str());
        classify_relation_line(in_bounds, has_comma, parts.relation, rhs_is_zero, is_list, line)
    }

    /// The variables of a bound list: the index that each match of a
    /// variable captures, read in order. The first index that cannot be read
    /// is the error.
    pub fn bound_variables(&self, lhs: &str, line: usize) -> (result: Result<
        Vec<usize>,
        ParseError,
    >)
        ensures
            match index_readings(variable_indices(lhs@)) {
                Ok(variables) => result matches Ok(found) && found@ == variables,
                Err(message) => result matches Err(error) && error.line == Some(line)
                    && error.message@ == message,
            },
    {
        proof {
            use_type_invariant(self);
        }
        let ghost all = regex_captures_all(variable_pattern(), lhs@);
        let ghost indices = variable_indices(lhs@);
        let found = captures_all(&self.variable, lhs);
        let mut variables: Vec<usize> = Vec::new();
        let mut k: usize = 0;
        assert(indices.take(0) =~= Seq::<Seq<char>>::empty());
        while k < found.len()
            invariant
                k <= found@.len(),
                found@.len() == all.len(),
                all == regex_captures_all(variable_pattern(), lhs@),
                indices == variable_indices(lhs@),
                forall|j: int| 0 <= j < found@.len() ==> groups_view(#[trigger] found@[j]@) == all[j],
                index_readings(indices.take(k as int)) == Ok::<Seq<usize>, Seq<char>>(variables@),
            decreases found.len() - k,
        {
            let index = group(&found[k], 1);
            assert(groups_view(found@[k as int]@) == all[k as int]);
            assert(index@ == indices[k as int]);
            assert(indices.take(k + 1).drop_last() =~= indices.take(k as int));
            assert(indices.take(k + 1).last() == indices[k as int]);
            match parse_variable_index(index.as_str(), line) {
                Ok(variable) => {
                    variables.push(variable);
                },
                Err(error) => {
                    proof {
                        lemma_readings_keep_error(indices, k + 1);
                    }
                    return Err(error);
                },
            }
            k = k + 1;
        }
        assert(indices.take(k as int) =~= indices);
        Ok(variables)
    }

    /// Reads the terms of a linear expression: each match of a term must
    /// follow the previous one with nothing but white space between them,
    /// every term but the first needs a sign, and after the last term only
    /// white space may follow. The terms before the first error are kept.
    pub fn expression_terms(&self, expression: &str, line: usize) -> (scan: ExpressionScan)
        ensures
            scan.terms@.len() == first_break(
                regex_captures_all(term_pattern(), expression@),
                regex_split(term_pattern(), expression@),
                0,
            ),
            forall|j: int|
                0 <= j < scan.terms@.len() ==> term_of_groups(
                    #[trigger] scan.terms@[j],
                    regex_captures_all(term_pattern(), expression@)[j],
                ),
            scan.terms@.len() < regex_captures_all(term_pattern(), expression@).len()
                ==> (scan.error matches Some(error) && error.line == Some(line) && error.message@
                == if !is_blank(
                gap_text(regex_split(term_pattern(), expression@), scan.terms@.len() as int),
            ) {
                invalid_expression_message(expression@)
            } else {
                separator_message(expression@)
            }),
            scan.terms@.len() == regex_captures_all(term_pattern(), expression@).len() ==> if (
            scan.terms@.len() == 0 || !is_blank(
                gap_text(regex_split(term_pattern(), expression@), scan.terms@.len() as int),
            )) {
                scan.error matches Some(error) && error.line == Some(line) && error.message@
                    == invalid_expression_message(expression@)
            } else {
                scan.error is None
            },
    {
        proof {
            use_type_invariant(self);
            reveal_strlit("-");
        }
        let ghost all = regex_captures_all(term_pattern(), expression@);
        let ghost pieces_view = regex_split(term_pattern(), expression@);
        let found = captures_all(&self.term, expression);
        let pieces = split(&self.term, expression);
        assert(texts_view(pieces@) =~= pieces_view);
        let mut terms: Vec<TermText> = Vec::new();
        let mut k: usize = 0;
        while k < found.len()
            invariant
                k <= found@.len(),
                found@.len() == all.len(),
                forall|j: int| 0 <= j < found@.len() ==> groups_view(#[trigger] found@[j]@) == all[j],
                texts_view(pieces@) == pieces_view,
                all == regex_captures_all(term_pattern(), expression@),
                pieces_view == regex_split(term_pattern(), expression@),
                terms@.len() == k,
                forall|j: int| 0 <= j < k ==> !term_breaks(all, pieces_view, j),
                forall|j: int| 0 <= j < k ==> term_of_groups(#[trigger] terms@[j], all[j]),
            decreases found.len() - k,
        {
            assert(groups_view(found@[k as int]@) == all[k as int]);
            let gap = piece(&pieces, k);
            if !blank(gap.as_str()) {
                proof {
                    lemma_first_break_skips(all, pieces_view, 0, k as nat);
                }
                return ExpressionScan {
                    terms,
                    error: Some(error_with_quote("expressão linear inválida: \"", expression, line)),
                };
            }
            let sign = group(&found[k], 1);
            if k > 0 && sign.unicode_len() == 0 {
                proof {
                    lemma_first_break_skips(all, pieces_view, 0, k as nat);
                }
                return ExpressionScan {
                    terms,
                    error: Some(
                        error_with_quote("termos devem ser separados por '+' ou '-': \"", expression, line),
                    ),
                };
            }
            let negative = same_text(sign.as_str(), "-");
            let coefficient = group(&found[k], 2);
            let variable = group(&found[k], 3);
            terms.push(TermText { negative, coefficient, variable });
            k = k + 1;
        }
        proof {
            lemma_first_break_skips(all, pieces_view, 0, k as nat);
        }
        let trailing = piece(&pieces, k);
        if k == 0 || !blank(trailing.as_str()) {
            return ExpressionScan {
                terms,
                error: Some(error_with_quote("expressão linear inválida: \"", expression, line)),
            };
        }
        ExpressionScan { terms, error: None }
    }

    /// Whether a left side is a list of variables separated by commas.
    pub fn is_variable_list(&self, lhs: &str) -> (found: bool)
        ensures
            found == regex_is_match(variable_list_pattern(), lhs@),
    {
        proof {
            use_type_invariant(self);
        }
        is_match(&self.variable_list, lhs)
    }
}

/// The ASCII lower case of a character: `A` to `Z` become `a` to `z`, and
/// every other character stays as it is.
pub open spec fn ascii_lowercase(c: char) -> char {
    if 'A' <= c <= 'Z' {
        ((c as u32) + 32) as char
    } else {
        c
    }
}

/// The ASCII lower case of a text.
pub open spec fn ascii_lowercase_text(text: Seq<char>) -> Seq<char> {
    text.map_values(|c: char| ascii_lowercase(c))
}

proof fn lemma_lowercase_letter(c: char, lower: char, upper: char)
    requires
        'a' <= lower <= 'z',
        upper as u32 + 32 == lower as u32,
    ensures
        ascii_lowercase(c) == lower <==> (c == lower || c == upper),
{
    if 'A' <= c <= 'Z' {
        assert(((c as u32) + 32) as char == lower <==> c as u32 + 32 == lower as u32);
    }
}

/// The objective is a maximisation exactly when the word of its line is
/// `max` in any ASCII case (`max`, `MAX`, `mAx`, ...); every other word, such
/// as `min` in any case, makes it a minimisation.
pub proof fn lemma_sense_ignores_ascii_case(word: Seq<char>)
    ensures
        sense_of_word(word) == Sense::Max <==> ascii_lowercase_text(word) == seq!['m', 'a', 'x'],
        ascii_lowercase_text(word) == seq!['m', 'i', 'n'] ==> sense_of_word(word) == Sense::Min,
{
    let lowered = ascii_lowercase_text(word);
    if word.len() == 3 {
        lemma_lowercase_letter(word[0], 'm', 'M');
        lemma_lowercase_letter(word[1], 'a', 'A');
        lemma_lowercase_letter(word[2], 'x', 'X');
        lemma_lowercase_letter(word[1], 'i', 'I');
        assert(lowered[0] == ascii_lowercase(word[0]));
        assert(lowered[1] == ascii_lowercase(word[1]));
        assert(lowered[2] == ascii_lowercase(word[2]));
        if is_max_word(word) {
            assert(lowered =~= seq!['m', 'a', 'x']);
        }
        if lowered == seq!['m', 'a', 'x'] {
            assert(lowered[0] == 'm' && lowered[1] == 'a' && lowered[2] == 'x');
        }
        if lowered == seq!['m', 'i', 'n'] {
            assert(lowered[1] == 'i');
        }
    } else {
        assert(lowered.len() != seq!['m', 'a', 'x'].len());
    }
}

/// A term read from an expression is negative exactly when its sign is `-`,
/// whatever its coefficient: `- x_2` is the term of coefficient -1, and
/// `-2x_2` that of coefficient -2.
pub proof fn lemma_term_sign_is_its_sign(term: TermText, groups: Seq<Option<Seq<char>>>)
    requires
        term_of_groups(term, groups),
    ensures
        term.negative <==> group_text(groups, 1) == seq!['-'],
{
    reveal_strlit("-");
    assert("-"@ =~= seq!['-']);
}

/// Two terms with the same sign text have the same sign, whatever their
/// coefficients and variables.
pub proof fn lemma_term_sign_ignores_coefficient(
    first: TermText,
    first_groups: Seq<Option<Seq<char>>>,
    second: TermText,
    second_groups: Seq<Option<Seq<char>>>,
)
    requires
        term_of_groups(first, first_groups),
        term_of_groups(second, second_groups),
        group_text(first_groups, 1) == group_text(second_groups, 1),
    ensures
        first.negative == second.negative,
{
}

/// One or more decimal digits, in the syntax of the `regex` crate.
pub open spec fn digits_syntax() -> Seq<char> {
    seq!['\\', 'd', '+']
}

/// Optional white space, in the syntax of the `regex` crate.
pub open spec fn spaces_syntax() -> Seq<char> {
    seq!['\\', 's', '*']
}

/// A decimal numeral: an optional minus, then an integer part of any
/// number of digits with an optional fraction, or a fraction alone.
pub open spec fn numeral_syntax() -> Seq<char> {
    seq!['-', '?', '(', '?', ':'] + digits_syntax() + seq![
        '(',
        '?',
        ':',
        '\\',
        '.',
        '\\',
        'd',
        '*',
        ')',
        '?',
        '|',
        '\\',
        '.',
    ] + digits_syntax() + seq![')']
}

/// A variable: `x_` and the digits of its index.
pub open spec fn variable_syntax() -> Seq<char> {
    seq!['x', '_'] + digits_syntax()
}

/// The relation pattern is a whole line made of a left side (the shortest
/// text that lets the rest match), a relation symbol and a numeral with any
/// number of digits, with optional white space between them; the three are
/// captured in this order.
pub proof fn lemma_relation_pattern_reads_numerals()
    ensures
        relation_pattern() == seq!['^', '(', '.', '*', '?', ')'] + spaces_syntax() + seq![
            '(',
            '<',
            '=',
            '|',
            '>',
            '=',
            '|',
            '=',
            '|',
            '<',
            '|',
            '>',
            ')',
        ] + spaces_syntax() + seq!['('] + numeral_syntax() + seq![')'] + spaces_syntax()
            + seq!['$'],
{
    reveal_strlit("^(.*?)\\s*(<=|>=|=|<|>)\\s*(-?(?:\\d+(?:\\.\\d*)?|\\.\\d+))\\s*$");
    assert(relation_pattern() =~= seq!['^', '(', '.', '*', '?', ')'] + spaces_syntax() + seq![
        '(',
        '<',
        '=',
        '|',
        '>',
        '=',
        '|',
        '=',
        '|',
        '<',
        '|',
        '>',
        ')',
    ] + spaces_syntax() + seq!['('] + numeral_syntax() + seq![')'] + spaces_syntax() + seq![
        '$',
    ]);
}

/// The bound list pattern is a whole text made of one variable followed by
/// any number of further variables, each after a comma with optional white
/// space around it.
pub proof fn lemma_variable_list_pattern_reads_any_length()
    ensures
        variable_list_pattern() == seq!['^'] + variable_syntax() + seq!['(', '?', ':']
            + spaces_syntax() + seq![','] + spaces_syntax() + variable_syntax() + seq![
            ')',
            '*',
            '$',
        ],
{
    reveal_strlit("^x_\\d+(?:\\s*,\\s*x_\\d+)*$");
    assert(variable_list_pattern() =~= seq!['^'] + variable_syntax() + seq!['(', '?', ':']
        + spaces_syntax() + seq![','] + spaces_syntax() + variable_syntax() + seq![
        ')',
        '*',
        '$',
    ]);
}

/// The objective line reads as its captured pieces: the first group is the
/// word, which makes a maximisation exactly when it is `max` in any ASCII
/// case, and the second is the expression. A line that does not match is
/// an error.
pub proof fn lemma_objective_reading_pieces(text: Seq<char>)
    ensures
        regex_captures(objective_pattern(), text) is None ==> objective_reading(text) is Err,
        regex_captures(objective_pattern(), text) matches Some(groups) ==> objective_reading(
            text,
        ) matches Ok((sense, expression)) && expression == group_text(groups, 2) && (sense
            == Sense::Max <==> ascii_lowercase_text(group_text(groups, 1)) == seq![
            'm',
            'a',
            'x',
        ]),
{
    if let Some(groups) = regex_captures(objective_pattern(), text) {
        lemma_sense_ignores_ascii_case(group_text(groups, 1));
    }
}

/// A relation line reads as its captured pieces: the left side is the first
/// group without surrounding white space, the relation is the one whose
/// symbol the second group holds (`<=`, `>=` or `=`), and the right side is
/// the third group as written. The strict symbols `<` and `>` are refused,
/// and so is a line that does not match.
pub proof fn lemma_relation_reading_pieces(text: Seq<char>)
    ensures
        regex_captures(relation_pattern(), text) is None ==> relation_reading(text) is Err,
        regex_captures(relation_pattern(), text) matches Some(groups) ==> {
            let symbol = group_text(groups, 2);
            &&& (symbol == seq!['<'] || symbol == seq!['>']) ==> relation_reading(text)
                == Err::<(Seq<char>, Relation, Seq<char>), Seq<char>>(
                strict_inequality_message(),
            )
            &&& symbol == seq!['<', '='] ==> relation_reading(text) == Ok::<
                (Seq<char>, Relation, Seq<char>),
                Seq<char>,
            >((trimmed(group_text(groups, 1)), Relation::LessOrEqual, group_text(groups, 3)))
            &&& symbol == seq!['>', '='] ==> relation_reading(text) == Ok::<
                (Seq<char>, Relation, Seq<char>),
                Seq<char>,
            >((trimmed(group_text(groups, 1)), Relation::GreaterOrEqual, group_text(groups, 3)))
            &&& symbol == seq!['='] ==> relation_reading(text) == Ok::<
                (Seq<char>, Relation, Seq<char>),
                Seq<char>,
            >((trimmed(group_text(groups, 1)), Relation::Equal, group_text(groups, 3)))
        },
{
    reveal_strlit("<");
    reveal_strlit(">");
    reveal_strlit("<=");
    reveal_strlit(">=");
    reveal_strlit("=");
    assert("<"@ =~= seq!['<']);
    assert(">"@ =~= seq!['>']);
    assert("<="@ =~= seq!['<', '=']);
    assert(">="@ =~= seq!['>', '=']);
    assert("="@ =~= seq!['=']);
    if let Some(groups) = regex_captures(relation_pattern(), text) {
        let symbol = group_text(groups, 2);
        if symbol == seq!['<', '='] {
            assert(symbol.len() == 2);
            assert(symbol != seq!['<'] && symbol != seq!['>']);
            assert(relation_of_text(symbol) == Relation::LessOrEqual);
        }
        if symbol == seq!['>', '='] {
            assert(symbol.len() == 2);
            assert(symbol != seq!['<'] && symbol != seq!['>']);
            assert(symbol != seq!['<', '=']) by {
                assert(symbol[0] != seq!['<', '='][0]);
            }
            assert(relation_of_text(symbol) == Relation::GreaterOrEqual);
        }
        if symbol == seq!['='] {
            assert(symbol.len() == 1 && symbol[0] == '=');
            assert(symbol != seq!['<'] && symbol != seq!['>']) by {
                assert(seq!['<'][0] == '<' && seq!['>'][0] == '>');
            }
            assert(symbol != seq!['<', '='] && symbol != seq!['>', '=']);
            assert(relation_of_text(symbol) == Relation::Equal);
        }
    }
}

/// The terms kept from an expression are a prefix of its matches in which
/// only white space stands before each term and every term but the first
/// has a sign; the scan stops at the first match that breaks one of these
/// rules.
pub proof fn lemma_kept_terms_are_well_separated(
    matches: Seq<Seq<Option<Seq<char>>>>,
    pieces: Seq<Seq<char>>,
)
    ensures
        first_break(matches, pieces, 0) <= matches.len(),
        forall|j: int|
            0 <= j < first_break(matches, pieces, 0) ==> is_blank(#[trigger] gap_text(pieces, j)) && (j > 0
                ==> group_text(matches[j], 1).len() > 0),
        first_break(matches, pieces, 0) < matches.len() ==> {
            let k = first_break(matches, pieces, 0) as int;
            !is_blank(gap_text(pieces, k)) || (k > 0 && group_text(matches[k], 1).len() == 0)
        },
{
    lemma_first_break_from(matches, pieces, 0);
    assert forall|j: int|
        0 <= j < first_break(matches, pieces, 0) implies is_blank(
            #[trigger] gap_text(pieces, j),
        ) && (j > 0 ==> group_text(matches[j], 1).len() > 0) by {
        assert(0nat <= j < first_break(matches, pieces, 0nat));
        assert(is_blank(gap_text(pieces, j)));
    }
}

proof fn lemma_first_break_from(
    matches: Seq<Seq<Option<Seq<char>>>>,
    pieces: Seq<Seq<char>>,
    k: nat,
)
    requires
        k <= matches.len(),
    ensures
        k <= first_break(matches, pieces, k) <= matches.len(),
        forall|j: int|
            k <= j < first_break(matches, pieces, k) ==> is_blank(#[trigger] gap_text(pieces, j)) && (j > 0
                ==> group_text(matches[j], 1).len() > 0),
        first_break(matches, pieces, k) < matches.len() ==> {
            let b = first_break(matches, pieces, k) as int;
            !is_blank(gap_text(pieces, b)) || (b > 0 && group_text(matches[b], 1).len() == 0)
        },
    decreases matches.len() - k,
{
    if k < matches.len() && !term_breaks(matches, pieces, k as int) {
        lemma_first_break_from(matches, pieces, k + 1);
        assert forall|j: int|
            k <= j < first_break(matches, pieces, k) implies is_blank(#[trigger] gap_text(pieces, j)) && (j
                > 0 ==> group_text(matches[j], 1).len() > 0) by {
            if j == k {
                assert(!term_breaks(matches, pieces, k as int));
            }
        }
    }
}

} // verus!
