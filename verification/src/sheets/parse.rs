//! The formula grammar.
//!
//! ```text
//! entry  := "=" expr | "true" | "false" | any other text, taken as it is
//! expr   := bool | number | ref | string | call      (the first that fits)
//! bool   := "true" | "false"
//! number := DIGIT+ "." DIGIT+ | DIGIT+ (not followed by ".")
//! ref    := LETTER DIGIT+
//! string := '"' (any character but '"')* '"'
//! call   := NAME "(" " "* (expr (" " | ",")*)* ")"
//! NAME   := the characters up to the first "("
//! ```
//!
//! What follows a complete `expr` in an entry is ignored. Calls nest at most
//! [`MAX_DEPTH`] deep.

use vstd::prelude::*;
use vstd::string::StrSliceExecFns;
use super::expr::{lemma_args_view, views, Expr, ExprView};
use super::{CellError, CellErrorView, OpInfo, OpInfoView, Position, PositionView};
use crate::text::chars_of;
use crate::types::box_value::BoxValue;
use crate::types::float::{ask, Float, FloatOp, FloatOpView, FloatTable};
use crate::types::num::{Num, NumView};
use crate::types::value::{Scalar, ScalarView};

verus! {

/// How deep calls may nest.
pub const MAX_DEPTH: usize = 64;

/// The classes of characters that the grammar tells apart.
#[derive(Clone, Copy, Debug, PartialEq, Eq, Structural)]
pub enum CharClass {
    /// `0` to `9`.
    Digit,
    /// The space.
    Space,
    /// The space and the comma.
    Separator,
    /// Every character but `(`.
    NotParen,
    /// Every character but `"`.
    NotQuote,
}

impl CharClass {
    /// Whether `c` belongs to the class.
    pub open spec fn holds(self, c: char) -> bool {
        match self {
            CharClass::Digit => '0' <= c && c <= '9',
            CharClass::Space => c == ' ',
            CharClass::Separator => c == ' ' || c == ',',
            CharClass::NotParen => c != '(',
            CharClass::NotQuote => c != '"',
        }
    }

    /// Tests whether `c` belongs to the class.
    pub fn test(self, c: char) -> (b: bool)
        ensures
            b == self.holds(c),
    {
        match self {
            CharClass::Digit => '0' <= c && c <= '9',
            CharClass::Space => c == ' ',
            CharClass::Separator => c == ' ' || c == ',',
            CharClass::NotParen => c != '(',
            CharClass::NotQuote => c != '"',
        }
    }
}

/// Where the longest run of characters of `class` that starts at `i` ends.
pub open spec fn run_end(s: Seq<char>, i: int, class: CharClass) -> int
    decreases s.len() - i,
{
    if 0 <= i < s.len() && class.holds(s[i]) {
        run_end(s, i + 1, class)
    } else {
        i
    }
}

/// A run that starts inside a run ends where that run ends.
proof fn lemma_run_end_from(s: Seq<char>, i: int, k: int, class: CharClass)
    requires
        0 <= i <= k <= s.len(),
        forall|j: int| i <= j < k ==> class.holds(#[trigger] s[j]),
    ensures
        run_end(s, i, class) == run_end(s, k, class),
    decreases k - i,
{
    if i < k {
        lemma_run_end_from(s, i + 1, k, class);
    }
}

/// Finds the end of the run of characters of `class` that starts at `i`.
fn scan(chars: &Vec<char>, i: usize, class: CharClass) -> (end: usize)
    requires
        i <= chars@.len(),
    ensures
        end == run_end(chars@, i as int, class),
        i <= end <= chars@.len(),
{
    let mut k: usize = i;
    while k < chars.len() && class.test(chars[k])
        invariant
            i <= k <= chars@.len(),
            forall|j: int| i <= j < k ==> class.holds(#[trigger] chars@[j]),
        decreases chars@.len() - k,
    {
        k += 1;
    }
    proof {
        lemma_run_end_from(chars@, i as int, k as int, class);
    }
    k
}

/// The number that the decimal digits `s[from..to]` stand for.
pub open spec fn digits_value(s: Seq<char>, from: int, to: int) -> nat
    decreases to - from,
{
    if to <= from {
        0
    } else {
        (digits_value(s, from, to - 1) * 10 + (s[to - 1] as int - '0' as int)) as nat
    }
}

/// More digits do not make a smaller number.
proof fn lemma_digits_value_grows(s: Seq<char>, from: int, mid: int, to: int)
    requires
        0 <= from <= mid <= to <= s.len(),
        forall|j: int| from <= j < to ==> CharClass::Digit.holds(#[trigger] s[j]),
    ensures
        digits_value(s, from, mid) <= digits_value(s, from, to),
    decreases to - mid,
{
    if mid < to {
        lemma_digits_value_grows(s, from, mid, to - 1);
    }
}

/// Reads the digits `chars[from..to]` as a number, if it is at most `bound`.
fn read_number(chars: &Vec<char>, from: usize, to: usize, bound: u64) -> (r: Option<u64>)
    requires
        from <= to <= chars@.len(),
        forall|j: int| from <= j < to ==> CharClass::Digit.holds(#[trigger] chars@[j]),
    ensures
        r is Some == (digits_value(chars@, from as int, to as int) <= bound),
        r matches Some(n) ==> n == digits_value(chars@, from as int, to as int),
{
    let mut acc: u64 = 0;
    let mut k: usize = from;
    while k < to
        invariant
            from <= k <= to <= chars@.len(),
            acc == digits_value(chars@, from as int, k as int),
            acc <= bound,
            forall|j: int| from <= j < to ==> CharClass::Digit.holds(#[trigger] chars@[j]),
        decreases to - k,
    {
        let d: u64 = (chars[k] as u32 - '0' as u32) as u64;
        if d > bound || acc > (bound - d) / 10 {
            proof {
                lemma_digits_value_grows(chars@, from as int, k + 1, to as int);
            }
            return None;
        }
        acc = acc * 10 + d;
        k += 1;
    }
    Some(acc)
}

/// What one rule of the grammar makes of the text from some place on.
pub enum ParsedView {
    /// The rule fits: the expression read, and the place after it.
    Fits(ExprView, int),
    /// The rule does not fit here.
    Misfit,
    /// The rule fits a decimal literal whose double the table lacks.
    Pending(FloatOpView),
}

/// What the list of a call's arguments comes to: a list never fails to fit,
/// it may be empty.
pub enum ParsedArgsView {
    /// The arguments read, and the place after the last separator.
    Fits(Seq<ExprView>, int),
    /// An argument is a decimal literal whose double the table lacks.
    Pending(FloatOpView),
}

/// Whether `word` stands in `s` at `i`.
pub open spec fn word_at(s: Seq<char>, i: int, word: Seq<char>) -> bool {
    0 <= i && i + word.len() <= s.len() && s.subrange(i, i + word.len()) == word
}

/// The word `true`.
pub open spec fn word_true() -> Seq<char> {
    seq!['t', 'r', 'u', 'e']
}

/// The word `false`.
pub open spec fn word_false() -> Seq<char> {
    seq!['f', 'a', 'l', 's', 'e']
}

/// `bool := "true" | "false"`
pub open spec fn bool_at(s: Seq<char>, i: int) -> ParsedView {
    if word_at(s, i, word_false()) {
        ParsedView::Fits(ExprView::Value(ScalarView::Bool(false)), i + 5)
    } else if word_at(s, i, word_true()) {
        ParsedView::Fits(ExprView::Value(ScalarView::Bool(true)), i + 4)
    } else {
        ParsedView::Misfit
    }
}

/// `DIGIT+ "." DIGIT+`: the double that the table gives for the literal.
pub open spec fn float_at(s: Seq<char>, i: int, table: Map<FloatOpView, int>) -> ParsedView {
    let dot = run_end(s, i, CharClass::Digit);
    let end = run_end(s, dot + 1, CharClass::Digit);
    if 0 <= i < dot && dot < s.len() && s[dot] == '.' && dot + 1 < end {
        match ask(table, FloatOpView::Parse(s.subrange(i, end))) {
            Ok(bits) => ParsedView::Fits(ExprView::Value(ScalarView::Num(NumView::F(bits))), end),
            Err(op) => ParsedView::Pending(op),
        }
    } else {
        ParsedView::Misfit
    }
}

/// `DIGIT+` not followed by `.`: an integer, if it fits the signed 64-bit range.
pub open spec fn int_at(s: Seq<char>, i: int) -> ParsedView {
    let end = run_end(s, i, CharClass::Digit);
    if 0 <= i < end && !(end < s.len() && s[end] == '.') && digits_value(s, i, end)
        <= i64::MAX {
        ParsedView::Fits(
            ExprView::Value(ScalarView::Num(NumView::I(digits_value(s, i, end) as int))),
            end,
        )
    } else {
        ParsedView::Misfit
    }
}

/// `number := float | int`
pub open spec fn number_at(s: Seq<char>, i: int, table: Map<FloatOpView, int>) -> ParsedView {
    let f = float_at(s, i, table);
    if f is Misfit {
        int_at(s, i)
    } else {
        f
    }
}

/// Whether `c` is an ASCII letter.
pub open spec fn is_letter(c: char) -> bool {
    ('A' <= c && c <= 'Z') || ('a' <= c && c <= 'z')
}

/// `ref := LETTER DIGIT+`: the column is the letter's distance from `A`, the
/// row is the number less one. Row 0 is read as the error of a malformed
/// formula.
pub open spec fn ref_at(s: Seq<char>, i: int) -> ParsedView {
    let end = run_end(s, i + 1, CharClass::Digit);
    if 0 <= i < s.len() && is_letter(s[i]) && i + 1 < end && digits_value(s, i + 1, end)
        <= usize::MAX {
        if digits_value(s, i + 1, end) == 0 {
            ParsedView::Fits(ExprView::Error(CellErrorView::ParseError), end)
        } else {
            ParsedView::Fits(
                ExprView::Ref(
                    PositionView {
                        x: s[i] as int - 'A' as int,
                        y: digits_value(s, i + 1, end) - 1,
                    },
                ),
                end,
            )
        }
    } else {
        ParsedView::Misfit
    }
}

/// `string := '"' [^"]* '"'`
pub open spec fn string_at(s: Seq<char>, i: int) -> ParsedView {
    let end = run_end(s, i + 1, CharClass::NotQuote);
    if 0 <= i < s.len() && s[i] == '"' && end < s.len() {
        ParsedView::Fits(ExprView::Value(ScalarView::Str(s.subrange(i + 1, end))), end + 1)
    } else {
        ParsedView::Misfit
    }
}

/// `expr := bool | number | ref | string | call`, the first that fits, with
/// calls nested at most `depth` deep.
pub open spec fn expr_at(s: Seq<char>, i: int, depth: nat, table: Map<FloatOpView, int>) -> ParsedView
    decreases depth, s.len() - i, 1int,
{
    if !(bool_at(s, i) is Misfit) {
        bool_at(s, i)
    } else if !(number_at(s, i, table) is Misfit) {
        number_at(s, i, table)
    } else if !(ref_at(s, i) is Misfit) {
        ref_at(s, i)
    } else if !(string_at(s, i) is Misfit) {
        string_at(s, i)
    } else {
        call_at(s, i, depth, table)
    }
}

/// `call := NAME "(" " "* args ")"`, where `depth` is at least 1.
pub open spec fn call_at(s: Seq<char>, i: int, depth: nat, table: Map<FloatOpView, int>) -> ParsedView
    decreases depth, s.len() - i, 0int,
{
    let paren = run_end(s, i, CharClass::NotParen);
    if depth > 0 && 0 <= i && paren < s.len() {
        match args_from(
            s,
            run_end(s, paren + 1, CharClass::Space),
            (depth - 1) as nat,
            table,
        ) {
            ParsedArgsView::Pending(op) => ParsedView::Pending(op),
            ParsedArgsView::Fits(args, end) => if 0 <= end < s.len() && s[end] == ')' {
                ParsedView::Fits(
                    ExprView::Form(OpInfoView { name: s.subrange(i, paren), args }),
                    end + 1,
                )
            } else {
                ParsedView::Misfit
            },
        }
    } else {
        ParsedView::Misfit
    }
}

/// The list `tail` with the expressions `head` put before it.
pub open spec fn prepend(head: Seq<ExprView>, tail: ParsedArgsView) -> ParsedArgsView {
    match tail {
        ParsedArgsView::Pending(op) => ParsedArgsView::Pending(op),
        ParsedArgsView::Fits(rest, end) => ParsedArgsView::Fits(head + rest, end),
    }
}

/// `args := (expr (" " | ",")*)*`: expressions as long as one fits, each with
/// the separators that follow it.
pub open spec fn args_from(s: Seq<char>, i: int, depth: nat, table: Map<FloatOpView, int>) -> ParsedArgsView
    decreases depth, s.len() - i, 2int,
{
    match expr_at(s, i, depth, table) {
        ParsedView::Misfit => ParsedArgsView::Fits(Seq::empty(), i),
        ParsedView::Pending(op) => ParsedArgsView::Pending(op),
        ParsedView::Fits(first, after) => {
            let next = run_end(s, after, CharClass::Separator);
            if i < next <= s.len() {
                prepend(seq![first], args_from(s, next, depth, table))
            } else {
                ParsedArgsView::Fits(seq![first], next)
            }
        },
    }
}

/// Why an entry gave no expression.
pub enum ParseFailureView {
    /// The formula is malformed.
    Malformed,
    /// The formula holds a decimal literal whose double the table lacks.
    Pending(FloatOpView),
}

/// `entry := "=" expr | "true" | "false" | any`: a formula after `=`, the
/// boolean for exactly `true` or `false`, and any other text as itself.
pub open spec fn entry(s: Seq<char>, table: Map<FloatOpView, int>) -> Result<
    ExprView,
    ParseFailureView,
> {
    if s.len() > 0 && s[0] == '=' {
        match expr_at(s, 1, MAX_DEPTH as nat, table) {
            ParsedView::Fits(e, _) => Ok(e),
            ParsedView::Misfit => Err(ParseFailureView::Malformed),
            ParsedView::Pending(op) => Err(ParseFailureView::Pending(op)),
        }
    } else if s == word_true() {
        Ok(ExprView::Value(ScalarView::Bool(true)))
    } else if s == word_false() {
        Ok(ExprView::Value(ScalarView::Bool(false)))
    } else {
        Ok(ExprView::Value(ScalarView::Str(s)))
    }
}

/// A text to parse, with its characters laid out for access by index.
pub struct Source<'a> {
    text: &'a str,
    chars: Vec<char>,
}

impl<'a> View for Source<'a> {
    type V = Seq<char>;

    closed spec fn view(&self) -> Seq<char> {
        self.chars@
    }
}

impl<'a> Source<'a> {
    #[verifier::type_invariant]
    spec fn agrees(self) -> bool {
        self.chars@ == self.text@
    }

    /// Lays out `text`.
    pub fn new(text: &'a str) -> (r: Source<'a>)
        ensures
            r@ == text@,
    {
        Source { text, chars: chars_of(text) }
    }

    /// The number of characters.
    pub fn len(&self) -> (n: usize)
        ensures
            n == self@.len(),
    {
        self.chars.len()
    }

    /// The character at `i`.
    pub fn at(&self, i: usize) -> (c: char)
        requires
            i < self@.len(),
        ensures
            c == self@[i as int],
    {
        self.chars[i]
    }

    /// The characters from `from` up to `to` as a string.
    pub fn slice(&self, from: usize, to: usize) -> (r: String)
        requires
            from <= to <= self@.len(),
        ensures
            r@ == self@.subrange(from as int, to as int),
    {
        proof {
            use_type_invariant(self);
        }
        self.text.substring_char(from, to).to_owned()
    }

    /// Whether `word` stands at `i`.
    fn has_word(&self, i: usize, word: &Vec<char>) -> (b: bool)
        requires
            i <= self@.len(),
        ensures
            b == word_at(self@, i as int, word@),
    {
        if word.len() > self.chars.len() - i {
            return false;
        }
        let mut k: usize = 0;
        while k < word.len()
            invariant
                k <= word@.len(),
                i + word@.len() <= self.chars@.len() <= usize::MAX,
                forall|j: int| 0 <= j < k ==> self.chars@[i + j] == word@[j],
            decreases word@.len() - k,
        {
            if self.chars[i + k] != word[k] {
                return false;
            }
            k += 1;
        }
        assert(self.chars@.subrange(i as int, i + word@.len()) =~= word@);
        true
    }
}

/// What one rule of the grammar makes of the text from some place on.
#[derive(Debug, PartialEq, Eq)]
pub enum Parsed {
    /// The rule fits: the expression read, and the place after it.
    Fits(Expr, usize),
    /// The rule does not fit here.
    Misfit,
    /// The rule fits a decimal literal whose double the table lacks.
    Pending(FloatOp),
}

impl View for Parsed {
    type V = ParsedView;

    open spec fn view(&self) -> ParsedView {
        match self {
            Parsed::Fits(e, end) => ParsedView::Fits(e@, *end as int),
            Parsed::Misfit => ParsedView::Misfit,
            Parsed::Pending(op) => ParsedView::Pending(op@),
        }
    }
}

/// What the list of a call's arguments comes to.
#[derive(Debug, PartialEq, Eq)]
pub enum ParsedArgs {
    /// The arguments read, and the place after the last separator.
    Fits(Vec<Expr>, usize),
    /// An argument is a decimal literal whose double the table lacks.
    Pending(FloatOp),
}

impl View for ParsedArgs {
    type V = ParsedArgsView;

    open spec fn view(&self) -> ParsedArgsView {
        match self {
            ParsedArgs::Fits(args, end) => ParsedArgsView::Fits(views(args@), *end as int),
            ParsedArgs::Pending(op) => ParsedArgsView::Pending(op@),
        }
    }
}

fn the_word_true() -> (w: Vec<char>)
    ensures
        w@ == word_true(),
{
    let mut w: Vec<char> = Vec::new();
    w.push('t');
    w.push('r');
    w.push('u');
    w.push('e');
    w
}

fn the_word_false() -> (w: Vec<char>)
    ensures
        w@ == word_false(),
{
    let mut w: Vec<char> = Vec::new();
    w.push('f');
    w.push('a');
    w.push('l');
    w.push('s');
    w.push('e');
    w
}

/// Reads `true` or `false` at `i`.
pub fn parse_bool(src: &Source, i: usize) -> (r: Parsed)
    requires
        i <= src@.len(),
    ensures
        r@ == bool_at(src@, i as int),
        r matches Parsed::Fits(_, end) ==> i < end <= src@.len(),
{
    let len: usize = src.len();
    if src.has_word(i, &the_word_false()) {
        Parsed::Fits(Expr::Value(BoxValue::new(Scalar::Bool(false))), i + 5)
    } else if src.has_word(i, &the_word_true()) {
        Parsed::Fits(Expr::Value(BoxValue::new(Scalar::Bool(true))), i + 4)
    } else {
        Parsed::Misfit
    }
}

/// Reads a decimal literal with a fraction at `i`.
pub fn parse_float(src: &Source, i: usize, floats: &FloatTable) -> (r: Parsed)
    requires
        i <= src@.len(),
    ensures
        r matches Parsed::Pending(op) ==> !floats@.contains_key(op@),
        r@ == float_at(src@, i as int, floats@),
        r matches Parsed::Fits(_, end) ==> i < end <= src@.len(),
{
    let dot = scan(&src.chars, i, CharClass::Digit);
    if dot == i || dot >= src.len() || src.at(dot) != '.' {
        return Parsed::Misfit;
    }
    let end = scan(&src.chars, dot + 1, CharClass::Digit);
    if end == dot + 1 {
        return Parsed::Misfit;
    }
    match floats.ask(FloatOp::Parse(src.slice(i, end))) {
        Ok(bits) => Parsed::Fits(
            Expr::Value(BoxValue::new(Scalar::Num(Num::F(Float { bits })))),
            end,
        ),
        Err(op) => Parsed::Pending(op),
    }
}

/// What `scan` found to be digits are digits.
proof fn lemma_run_holds(s: Seq<char>, i: int, class: CharClass)
    requires
        0 <= i <= s.len(),
    ensures
        forall|j: int| i <= j < run_end(s, i, class) ==> class.holds(#[trigger] s[j]),
    decreases s.len() - i,
{
    if i < s.len() && class.holds(s[i]) {
        lemma_run_holds(s, i + 1, class);
    }
}

/// Reads an integer literal at `i`.
pub fn parse_int(src: &Source, i: usize) -> (r: Parsed)
    requires
        i <= src@.len(),
    ensures
        r@ == int_at(src@, i as int),
        r matches Parsed::Fits(_, end) ==> i < end <= src@.len(),
{
    let end = scan(&src.chars, i, CharClass::Digit);
    if end == i || (end < src.len() && src.at(end) == '.') {
        return Parsed::Misfit;
    }
    proof {
        lemma_run_holds(src@, i as int, CharClass::Digit);
    }
    match read_number(&src.chars, i, end, 0x7FFF_FFFF_FFFF_FFFF) {
        Some(n) => Parsed::Fits(Expr::Value(BoxValue::new(Scalar::Num(Num::I(n as i64)))), end),
        None => Parsed::Misfit,
    }
}

/// Reads a number at `i`.
pub fn parse_num(src: &Source, i: usize, floats: &FloatTable) -> (r: Parsed)
    requires
        i <= src@.len(),
    ensures
        r matches Parsed::Pending(op) ==> !floats@.contains_key(op@),
        r@ == number_at(src@, i as int, floats@),
        r matches Parsed::Fits(_, end) ==> i < end <= src@.len(),
{
    match parse_float(src, i, floats) {
        Parsed::Misfit => parse_int(src, i),
        r => r,
    }
}

/// Reads a cell reference at `i`.
pub fn parse_ref(src: &Source, i: usize) -> (r: Parsed)
    requires
        i <= src@.len(),
    ensures
        r@ == ref_at(src@, i as int),
        r matches Parsed::Fits(_, end) ==> i < end <= src@.len(),
{
    if i >= src.len() {
        return Parsed::Misfit;
    }
    let c = src.at(i);
    if !(('A' <= c && c <= 'Z') || ('a' <= c && c <= 'z')) {
        return Parsed::Misfit;
    }
    let end = scan(&src.chars, i + 1, CharClass::Digit);
    if end == i + 1 {
        return Parsed::Misfit;
    }
    proof {
        lemma_run_holds(src@, i + 1, CharClass::Digit);
    }
    match read_number(&src.chars, i + 1, end, usize::MAX as u64) {
        None => Parsed::Misfit,
        Some(row) => {
            if row == 0 {
                Parsed::Fits(Expr::Error(CellError::ParseError), end)
            } else {
                let x: usize = (c as u32 - 'A' as u32) as usize;
                Parsed::Fits(Expr::Ref(Position { x, y: (row - 1) as usize }), end)
            }
        },
    }
}

/// Reads a string literal at `i`.
pub fn parse_str(src: &Source, i: usize) -> (r: Parsed)
    requires
        i <= src@.len(),
    ensures
        r@ == string_at(src@, i as int),
        r matches Parsed::Fits(_, end) ==> i < end <= src@.len(),
{
    if i >= src.len() || src.at(i) != '"' {
        return Parsed::Misfit;
    }
    let end = scan(&src.chars, i + 1, CharClass::NotQuote);
    if end >= src.len() {
        return Parsed::Misfit;
    }
    Parsed::Fits(Expr::Value(BoxValue::new(Scalar::Str(src.slice(i + 1, end)))), end + 1)
}

/// Reads an expression at `i`, with calls nested at most `depth` deep.
pub fn parse_expr(src: &Source, i: usize, depth: usize, floats: &FloatTable) -> (r: Parsed)
    requires
        i <= src@.len(),
    ensures
        r matches Parsed::Pending(op) ==> !floats@.contains_key(op@),
        r@ == expr_at(src@, i as int, depth as nat, floats@),
        r matches Parsed::Fits(_, end) ==> i < end <= src@.len(),
    decreases depth, src@.len() - i, 1int,
{
    match parse_bool(src, i) {
        Parsed::Misfit => {},
        r => {
            return r;
        },
    }
    match parse_num(src, i, floats) {
        Parsed::Misfit => {},
        r => {
            return r;
        },
    }
    match parse_ref(src, i) {
        Parsed::Misfit => {},
        r => {
            return r;
        },
    }
    match parse_str(src, i) {
        Parsed::Misfit => {},
        r => {
            return r;
        },
    }
    parse_fn(src, i, depth, floats)
}

/// Reads a call at `i`, nested at most `depth` deep, itself counted.
pub fn parse_fn(src: &Source, i: usize, depth: usize, floats: &FloatTable) -> (r: Parsed)
    requires
        i <= src@.len(),
    ensures
        r matches Parsed::Pending(op) ==> !floats@.contains_key(op@),
        r@ == call_at(src@, i as int, depth as nat, floats@),
        r matches Parsed::Fits(_, end) ==> i < end <= src@.len(),
    decreases depth, src@.len() - i, 0int,
{
    if depth == 0 {
        return Parsed::Misfit;
    }
    let paren = scan(&src.chars, i, CharClass::NotParen);
    if paren >= src.len() {
        return Parsed::Misfit;
    }
    let start = scan(&src.chars, paren + 1, CharClass::Space);
    match parse_args(src, start, depth - 1, floats) {
        ParsedArgs::Pending(op) => Parsed::Pending(op),
        ParsedArgs::Fits(args, end) => {
            if end < src.len() && src.at(end) == ')' {
                let info = OpInfo { name: src.slice(i, paren), args };
                proof {
                    lemma_args_view(info);
                }
                Parsed::Fits(Expr::Form(info), end + 1)
            } else {
                Parsed::Misfit
            }
        },
    }
}

/// Putting expressions before a list, one lot after the other, is putting
/// them before it together.
proof fn lemma_prepend_twice(a: Seq<ExprView>, b: Seq<ExprView>, tail: ParsedArgsView)
    ensures
        prepend(a, prepend(b, tail)) == prepend(a + b, tail),
{
    match tail {
        ParsedArgsView::Pending(_) => {},
        ParsedArgsView::Fits(rest, _) => {
            assert(a + (b + rest) =~= (a + b) + rest);
        },
    }
}

/// Reads the arguments of a call from `i` on.
fn parse_args(src: &Source, i: usize, depth: usize, floats: &FloatTable) -> (r: ParsedArgs)
    requires
        i <= src@.len(),
    ensures
        r matches ParsedArgs::Pending(op) ==> !floats@.contains_key(op@),
        r@ == args_from(src@, i as int, depth as nat, floats@),
        r matches ParsedArgs::Fits(_, end) ==> i <= end <= src@.len(),
    decreases depth, src@.len() - i, 2int,
{
    let mut args: Vec<Expr> = Vec::new();
    let mut k: usize = i;
    assert(prepend(Seq::<ExprView>::empty(), args_from(src@, i as int, depth as nat, floats@))
        == args_from(src@, i as int, depth as nat, floats@)) by {
        match args_from(src@, i as int, depth as nat, floats@) {
            ParsedArgsView::Pending(_) => {},
            ParsedArgsView::Fits(rest, _) => {
            },
        }
    }
    loop
        invariant
            i <= k <= src@.len(),
            args_from(src@, i as int, depth as nat, floats@) == prepend(
                views(args@),
                args_from(src@, k as int, depth as nat, floats@),
            ),
        decreases src@.len() - k,
    {
        match parse_expr(src, k, depth, floats) {
            Parsed::Misfit => {
                return ParsedArgs::Fits(args, k);
            },
            Parsed::Pending(op) => {
                return ParsedArgs::Pending(op);
            },
            Parsed::Fits(e, after) => {
                let next = scan(&src.chars, after, CharClass::Separator);
                proof {
                    lemma_prepend_twice(
                        views(args@),
                        seq![e@],
                        args_from(src@, next as int, depth as nat, floats@),
                    );
                    assert(views(args@.push(e)) =~= views(args@) + seq![e@]);
                }
                args.push(e);
                k = next;
            },
        }
    }
}

/// Why an entry gave no expression.
#[derive(Debug, PartialEq, Eq)]
pub enum ParseFailure {
    /// The formula is malformed.
    Malformed,
    /// The formula holds a decimal literal whose double the table lacks.
    Pending(FloatOp),
}

impl View for ParseFailure {
    type V = ParseFailureView;

    open spec fn view(&self) -> ParseFailureView {
        match self {
            ParseFailure::Malformed => ParseFailureView::Malformed,
            ParseFailure::Pending(op) => ParseFailureView::Pending(op@),
        }
    }
}

/// Reads the text of a cell: a formula after `=`, the boolean for exactly
/// `true` or `false`, and any other text as itself.
pub fn parse_entry(i: &str, floats: &FloatTable) -> (r: Result<Expr, ParseFailure>)
    ensures
        r matches Ok(e) ==> entry(i@, floats@) == Ok::<ExprView, ParseFailureView>(e@),
        r matches Err(ParseFailure::Pending(op)) ==> !floats@.contains_key(op@),
        r matches Err(f) ==> entry(i@, floats@) == Err::<ExprView, ParseFailureView>(f@),
{
    let src = Source::new(i);
    let len: usize = src.len();
    if len > 0 && src.at(0) == '=' {
        match parse_expr(&src, 1, MAX_DEPTH, floats) {
            Parsed::Fits(e, _) => Ok(e),
            Parsed::Misfit => Err(ParseFailure::Malformed),
            Parsed::Pending(op) => Err(ParseFailure::Pending(op)),
        }
    } else if len == 4 && src.has_word(0, &the_word_true()) {
        assert(src@.subrange(0, 4) =~= src@);
        Ok(Expr::Value(BoxValue::new(Scalar::Bool(true))))
    } else if len == 5 && src.has_word(0, &the_word_false()) {
        Ok(Expr::Value(BoxValue::new(Scalar::Bool(false))))
    } else {
        assert(src@.len() == 4 ==> src@.subrange(0, 4) =~= src@);
        assert(src@.len() == 5 ==> src@.subrange(0, 5) =~= src@);
        Ok(Expr::Value(BoxValue::new(Scalar::Str(i.to_owned()))))
    }
}

} // verus!
