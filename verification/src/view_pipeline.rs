//! Token-based view rendering pipeline.
//!
//! A stream of view tokens (text runs, spaces, source newlines, injected
//! newlines and wrap breaks) is cut into display lines.  Every display line
//! keeps, for each displayed character, the source byte offset it came from
//! and the style of its token, so that rendering decisions (such as whether
//! a line gets a line number) are made from token kinds rather than from
//! flattened text.

use std::collections::HashSet;
use vstd::prelude::*;
use vstd::std_specs::hash::obeys_key_model;
use crate::text_util::{char_len_utf8, string_push, utf8_width, utf8_width_seq};

verus! {

broadcast use vstd::std_specs::hash::group_hash_axioms;

/// Style of a view token.
#[derive(Debug, Clone, Copy, PartialEq, Eq)]
pub struct ViewTokenStyle {
    pub fg: Option<(u8, u8, u8)>,
    pub bg: Option<(u8, u8, u8)>,
    pub bold: bool,
    pub italic: bool,
}

/// What a view token stands for.
#[derive(Debug, Clone)]
pub enum ViewTokenWireKind {
    /// A run of text.
    Text(String),
    /// A line break (from the source when it has a source offset, injected otherwise).
    Newline,
    /// A single space.
    Space,
    /// A synthetic line break inserted by wrapping.
    Break,
}

/// A view token: its kind, the source byte offset it maps to (if any) and its style.
#[derive(Debug, Clone)]
pub struct ViewTokenWire {
    pub source_offset: Option<usize>,
    pub kind: ViewTokenWireKind,
    pub style: Option<ViewTokenStyle>,
}

/// A display line built from tokens, preserving token-level information.
#[derive(Debug)]
pub struct ViewLine {
    /// The display text for this line (tabs expanded).
    pub text: String,
    /// Source offset mapping for each character position.
    pub char_mappings: Vec<Option<usize>>,
    /// Style for each character position (from token styles).
    pub char_styles: Vec<Option<ViewTokenStyle>>,
    /// Byte positions in `text` at which a tab expansion starts.
    pub tab_starts: HashSet<usize>,
    /// How this line started (what kind of token/boundary preceded it).
    pub line_start: LineStart,
    /// Whether this line ends with a newline character.
    pub ends_with_newline: bool,
}

/// What preceded the start of a display line.
#[derive(Debug, Clone, Copy, PartialEq, Eq)]
pub enum LineStart {
    /// First line of the view (no preceding token).
    Beginning,
    /// Line after a source Newline token (source_offset: Some).
    AfterSourceNewline,
    /// Line after an injected Newline token (source_offset: None).
    AfterInjectedNewline,
    /// Line after a Break token (wrapped continuation).
    AfterBreak,
}

/// Mathematical model of a display line.
pub struct ViewLineModel {
    pub text: Seq<char>,
    pub char_mappings: Seq<Option<usize>>,
    pub char_styles: Seq<Option<ViewTokenStyle>>,
    pub tab_starts: Set<usize>,
    pub line_start: LineStart,
    pub ends_with_newline: bool,
}

impl View for ViewLine {
    type V = ViewLineModel;

    open spec fn view(&self) -> ViewLineModel {
        ViewLineModel {
            text: self.text@,
            char_mappings: self.char_mappings@,
            char_styles: self.char_styles@,
            tab_starts: self.tab_starts@,
            line_start: self.line_start,
            ends_with_newline: self.ends_with_newline,
        }
    }
}

/// `HashSet::clone` on a set of positions: a set with the same elements.
#[verifier::external_body]
fn clone_positions(s: &HashSet<usize>) -> (r: HashSet<usize>)
    ensures
        r@ == s@,
{
    s.clone()
}

impl Clone for ViewLine {
    /// A copy of the line.
    fn clone(&self) -> (r: ViewLine)
        ensures
            r@ == self@,
    {
        let mut char_mappings: Vec<Option<usize>> = Vec::new();
        let mut char_styles: Vec<Option<ViewTokenStyle>> = Vec::new();
        let mut i: usize = 0;
        while i < self.char_mappings.len()
            invariant
                i <= self.char_mappings@.len(),
                char_mappings@ == self.char_mappings@.take(i as int),
            decreases self.char_mappings@.len() - i,
        {
            char_mappings.push(self.char_mappings[i]);
            proof {
                assert(self.char_mappings@.take(i + 1) =~= self.char_mappings@.take(i as int).push(
                    self.char_mappings@[i as int],
                ));
            }
            i += 1;
        }
        let mut j: usize = 0;
        while j < self.char_styles.len()
            invariant
                j <= self.char_styles@.len(),
                char_styles@ == self.char_styles@.take(j as int),
            decreases self.char_styles@.len() - j,
        {
            char_styles.push(self.char_styles[j]);
            proof {
                assert(self.char_styles@.take(j + 1) =~= self.char_styles@.take(j as int).push(
                    self.char_styles@[j as int],
                ));
            }
            j += 1;
        }
        proof {
            assert(self.char_mappings@.take(i as int) =~= self.char_mappings@);
            assert(self.char_styles@.take(j as int) =~= self.char_styles@);
        }
        ViewLine {
            text: self.text.clone(),
            char_mappings,
            char_styles,
            tab_starts: clone_positions(&self.tab_starts),
            line_start: self.line_start,
            ends_with_newline: self.ends_with_newline,
        }
    }
}

impl LineStart {
    /// Should this line be treated as a wrapped continuation (no line number)?
    pub fn is_continuation(&self) -> (r: bool)
        ensures
            r <==> *self == LineStart::AfterBreak,
    {
        matches!(self, LineStart::AfterBreak)
    }
}

/// Standard tab width for terminal display.
pub const TAB_WIDTH: usize = 8;

/// Number of spaces a tab expands to when it starts at display column `col`.
pub open spec fn tab_width_at(col: nat) -> nat {
    (TAB_WIDTH - col % (TAB_WIDTH as nat)) as nat
}

/// Expand a tab to spaces based on current column.
fn tab_expansion_width(col: usize) -> (w: usize)
    ensures
        w == tab_width_at(col as nat),
        w == TAB_WIDTH - col % TAB_WIDTH,
        1 <= w <= TAB_WIDTH,
        (col + w) % (TAB_WIDTH as int) == 0,
{
    TAB_WIDTH - (col % TAB_WIDTH)
}

// ---------------------------------------------------------------------------
// Model of how a display line is accumulated.
// ---------------------------------------------------------------------------

/// A partially built display line.
pub struct LineAcc {
    pub text: Seq<char>,
    pub mappings: Seq<Option<usize>>,
    pub styles: Seq<Option<ViewTokenStyle>>,
    pub tabs: Set<usize>,
    /// Display column (characters shown so far).
    pub col: nat,
}

pub open spec fn empty_acc() -> LineAcc {
    LineAcc {
        text: Seq::empty(),
        mappings: Seq::empty(),
        styles: Seq::empty(),
        tabs: Set::empty(),
        col: 0,
    }
}

/// Append one displayed character.
pub open spec fn acc_push(
    acc: LineAcc,
    c: char,
    m: Option<usize>,
    st: Option<ViewTokenStyle>,
) -> LineAcc {
    LineAcc {
        text: acc.text.push(c),
        mappings: acc.mappings.push(m),
        styles: acc.styles.push(st),
        tabs: acc.tabs,
        col: acc.col + 1,
    }
}

/// Append a tab: spaces up to the next tab stop, remembering the byte position
/// in the text at which the expansion starts.
pub open spec fn acc_push_tab(acc: LineAcc, m: Option<usize>, st: Option<ViewTokenStyle>) -> LineAcc {
    let n = tab_width_at(acc.col);
    LineAcc {
        text: acc.text + Seq::new(n, |i: int| ' '),
        mappings: acc.mappings + Seq::new(n, |i: int| m),
        styles: acc.styles + Seq::new(n, |i: int| st),
        tabs: acc.tabs.insert(utf8_width_seq(acc.text) as usize),
        col: acc.col + n,
    }
}

/// Append one character of a text token.
pub open spec fn acc_char(
    acc: LineAcc,
    c: char,
    m: Option<usize>,
    st: Option<ViewTokenStyle>,
) -> LineAcc {
    if c == '\t' {
        acc_push_tab(acc, m, st)
    } else {
        acc_push(acc, c, m, st)
    }
}

/// The source offset `k` bytes into a token that starts at `base`.
pub open spec fn offset_by(base: Option<usize>, k: nat) -> Option<usize> {
    match base {
        Some(s) => Some((s + k) as usize),
        None => None,
    }
}

/// Append the characters of a text token whose first byte maps to `base`.
pub open spec fn acc_text(
    acc: LineAcc,
    chars: Seq<char>,
    base: Option<usize>,
    st: Option<ViewTokenStyle>,
) -> LineAcc
    decreases chars.len(),
{
    if chars.len() == 0 {
        acc
    } else {
        acc_char(
            acc_text(acc, chars.drop_last(), base, st),
            chars.last(),
            offset_by(base, utf8_width_seq(chars.drop_last())),
            st,
        )
    }
}

/// Whether a token kind ends a display line.
pub open spec fn ends_line(k: ViewTokenWireKind) -> bool {
    k is Newline || k is Break
}

/// Append a token that does not end the line.
pub open spec fn acc_token(acc: LineAcc, tok: ViewTokenWire) -> LineAcc {
    match tok.kind {
        ViewTokenWireKind::Text(t) => acc_text(acc, t@, tok.source_offset, tok.style),
        ViewTokenWireKind::Space => acc_push(acc, ' ', tok.source_offset, tok.style),
        _ => acc,
    }
}

/// Append a run of tokens, in order.
pub open spec fn acc_tokens(acc: LineAcc, toks: Seq<ViewTokenWire>) -> LineAcc
    decreases toks.len(),
{
    if toks.len() == 0 {
        acc
    } else {
        acc_token(acc_tokens(acc, toks.drop_last()), toks.last())
    }
}

/// Index of the first line-ending token at or after `i` (or the stream length).
pub open spec fn next_line_end(toks: Seq<ViewTokenWire>, i: int) -> int
    decreases toks.len() - i,
{
    if i >= toks.len() {
        toks.len() as int
    } else if ends_line(toks[i].kind) {
        i
    } else {
        next_line_end(toks, i + 1)
    }
}

/// How the line after a line-ending token starts.
pub open spec fn start_after(tok: ViewTokenWire) -> LineStart {
    match tok.kind {
        ViewTokenWireKind::Break => LineStart::AfterBreak,
        _ => if tok.source_offset is Some {
            LineStart::AfterSourceNewline
        } else {
            LineStart::AfterInjectedNewline
        },
    }
}

/// The character mapping recorded for a line-ending token.
pub open spec fn end_mapping(tok: ViewTokenWire) -> Option<usize> {
    if tok.kind is Break {
        None
    } else {
        tok.source_offset
    }
}

/// The style recorded for a line-ending token.
pub open spec fn end_style(tok: ViewTokenWire) -> Option<ViewTokenStyle> {
    if tok.kind is Break {
        None
    } else {
        tok.style
    }
}

/// The display line that starts at token `i` (before the empty-line rule is applied).
pub open spec fn line_at(toks: Seq<ViewTokenWire>, i: int, start: LineStart) -> ViewLineModel {
    let e = next_line_end(toks, i);
    let acc = acc_tokens(empty_acc(), toks.subrange(i, e));
    if e < toks.len() {
        ViewLineModel {
            text: acc.text.push('\n'),
            char_mappings: acc.mappings.push(end_mapping(toks[e])),
            char_styles: acc.styles.push(end_style(toks[e])),
            tab_starts: acc.tabs,
            line_start: start,
            ends_with_newline: true,
        }
    } else {
        ViewLineModel {
            text: acc.text,
            char_mappings: acc.mappings,
            char_styles: acc.styles,
            tab_starts: acc.tabs,
            line_start: start,
            ends_with_newline: false,
        }
    }
}

/// Token index after reading the line that starts at token `i`.
pub open spec fn index_after_line(toks: Seq<ViewTokenWire>, i: int) -> int {
    let e = next_line_end(toks, i);
    if e < toks.len() {
        e + 1
    } else {
        toks.len() as int
    }
}

/// How the line after the one starting at token `i` starts.
pub open spec fn start_after_line(toks: Seq<ViewTokenWire>, i: int, start: LineStart) -> LineStart {
    let e = next_line_end(toks, i);
    if e < toks.len() {
        start_after(toks[e])
    } else {
        start
    }
}

/// The line produced by a read at token `i`: none when the tokens are used up,
/// or when only tokens that display nothing are left.
pub open spec fn produced_line(toks: Seq<ViewTokenWire>, i: int, start: LineStart) -> Option<
    ViewLineModel,
> {
    if i >= toks.len() {
        None
    } else {
        let line = line_at(toks, i, start);
        if line.text.len() == 0 && index_after_line(toks, i) >= toks.len() {
            None
        } else {
            Some(line)
        }
    }
}

// ---------------------------------------------------------------------------
// Machine limits on a token stream.
// ---------------------------------------------------------------------------

/// Upper bound on the display columns (and text bytes) a token can add to a line.
pub open spec fn token_weight(tok: ViewTokenWire) -> nat {
    match tok.kind {
        ViewTokenWireKind::Text(t) => 8 * t@.len(),
        _ => 1,
    }
}

pub open spec fn stream_weight(toks: Seq<ViewTokenWire>) -> nat
    decreases toks.len(),
{
    if toks.len() == 0 {
        0
    } else {
        stream_weight(toks.drop_last()) + token_weight(toks.last())
    }
}

/// A token stream that the iterator can process: every line it builds fits in
/// memory, and source offsets inside text runs do not run past `usize::MAX`.
pub open spec fn stream_fits(toks: Seq<ViewTokenWire>) -> bool {
    &&& stream_weight(toks) + 1 <= usize::MAX
    &&& forall|i: int|
        #![trigger toks[i]]
        0 <= i < toks.len() ==> match toks[i].kind {
            ViewTokenWireKind::Text(t) => match toks[i].source_offset {
                Some(s) => t@.len() > 0 ==> s + utf8_width_seq(t@.drop_last()) <= usize::MAX,
                None => true,
            },
            _ => true,
        }
}

// ---------------------------------------------------------------------------
// Lemmas.
// ---------------------------------------------------------------------------

proof fn lemma_utf8_width_push(s: Seq<char>, c: char)
    ensures
        utf8_width_seq(s.push(c)) == utf8_width_seq(s) + utf8_width(c),
{
    assert(s.push(c).drop_last() =~= s);
}

proof fn lemma_utf8_width_spaces(s: Seq<char>, n: nat)
    ensures
        utf8_width_seq(s + Seq::new(n, |i: int| ' ')) == utf8_width_seq(s) + n,
    decreases n,
{
    if n == 0 {
        assert(s + Seq::new(0, |i: int| ' ') =~= s);
    } else {
        let m = (n - 1) as nat;
        lemma_utf8_width_spaces(s, m);
        assert((s + Seq::new(n, |i: int| ' ')).drop_last() =~= s + Seq::new(m, |i: int| ' '));
    }
}

proof fn lemma_utf8_width_bound(s: Seq<char>)
    ensures
        utf8_width_seq(s) <= 4 * s.len(),
    decreases s.len(),
{
    if s.len() > 0 {
        lemma_utf8_width_bound(s.drop_last());
    }
}

proof fn lemma_utf8_width_prefix(s: Seq<char>, k: int)
    requires
        0 <= k <= s.len(),
    ensures
        utf8_width_seq(s.take(k)) <= utf8_width_seq(s),
    decreases s.len() - k,
{
    if k < s.len() {
        lemma_utf8_width_prefix(s, k + 1);
        assert(s.take(k + 1).drop_last() =~= s.take(k));
    } else {
        assert(s.take(k) =~= s);
    }
}

/// Shape facts about accumulated lines: the three per-character sequences
/// have the same length and the column counts the characters.
pub open spec fn acc_shape(acc: LineAcc) -> bool {
    &&& acc.mappings.len() == acc.text.len()
    &&& acc.styles.len() == acc.text.len()
    &&& acc.col == acc.text.len()
}

proof fn lemma_acc_char_shape(acc: LineAcc, c: char, m: Option<usize>, st: Option<ViewTokenStyle>)
    requires
        acc_shape(acc),
    ensures
        acc_shape(acc_char(acc, c, m, st)),
        acc_char(acc, c, m, st).col <= acc.col + 8,
        utf8_width_seq(acc_char(acc, c, m, st).text) <= utf8_width_seq(acc.text) + 8,
{
    if c == '\t' {
        let n = tab_width_at(acc.col);
        lemma_utf8_width_spaces(acc.text, n);
    } else {
        lemma_utf8_width_push(acc.text, c);
    }
}

proof fn lemma_acc_text_shape(acc: LineAcc, chars: Seq<char>, base: Option<usize>, st: Option<ViewTokenStyle>)
    requires
        acc_shape(acc),
    ensures
        acc_shape(acc_text(acc, chars, base, st)),
        acc_text(acc, chars, base, st).col <= acc.col + 8 * chars.len(),
        utf8_width_seq(acc_text(acc, chars, base, st).text) <= utf8_width_seq(acc.text) + 8 * chars.len(),
    decreases chars.len(),
{
    if chars.len() > 0 {
        lemma_acc_text_shape(acc, chars.drop_last(), base, st);
        lemma_acc_char_shape(
            acc_text(acc, chars.drop_last(), base, st),
            chars.last(),
            offset_by(base, utf8_width_seq(chars.drop_last())),
            st,
        );
    }
}

proof fn lemma_acc_tokens_shape(acc: LineAcc, toks: Seq<ViewTokenWire>)
    requires
        acc_shape(acc),
    ensures
        acc_shape(acc_tokens(acc, toks)),
        acc_tokens(acc, toks).col <= acc.col + stream_weight(toks),
        utf8_width_seq(acc_tokens(acc, toks).text) <= utf8_width_seq(acc.text) + stream_weight(toks),
    decreases toks.len(),
{
    if toks.len() > 0 {
        lemma_acc_tokens_shape(acc, toks.drop_last());
        let a = acc_tokens(acc, toks.drop_last());
        let t = toks.last();
        match t.kind {
            ViewTokenWireKind::Text(s) => {
                lemma_acc_text_shape(a, s@, t.source_offset, t.style);
            },
            ViewTokenWireKind::Space => {
                lemma_utf8_width_push(a.text, ' ');
            },
            _ => {},
        }
    }
}

proof fn lemma_stream_weight_subrange(toks: Seq<ViewTokenWire>, i: int, j: int)
    requires
        0 <= i <= j <= toks.len(),
    ensures
        stream_weight(toks.subrange(i, j)) <= stream_weight(toks),
    decreases toks.len() - j,
{
    if j < toks.len() {
        lemma_stream_weight_subrange(toks, i, j + 1);
        assert(toks.subrange(i, j + 1).drop_last() =~= toks.subrange(i, j));
    } else if i < j {
        lemma_stream_weight_prefix_drop(toks, i);
    } else {
        assert(toks.subrange(i, j).len() == 0);
    }
}

proof fn lemma_stream_weight_prefix_drop(toks: Seq<ViewTokenWire>, i: int)
    requires
        0 <= i <= toks.len(),
    ensures
        stream_weight(toks.subrange(i, toks.len() as int)) <= stream_weight(toks),
    decreases toks.len(),
{
    if toks.len() > 0 && i < toks.len() {
        lemma_stream_weight_prefix_drop(toks.drop_last(), i);
        assert(toks.subrange(i, toks.len() as int).drop_last() =~= toks.drop_last().subrange(
            i,
            toks.drop_last().len() as int,
        ));
    } else if i == toks.len() {
        assert(toks.subrange(i, toks.len() as int).len() == 0);
    }
}

/// Where the line that starts at token `i` ends: no token before it ends a
/// line, and it is a line-ending token unless the stream is used up.
pub proof fn lemma_next_line_end(toks: Seq<ViewTokenWire>, i: int)
    requires
        0 <= i <= toks.len(),
    ensures
        i <= next_line_end(toks, i) <= toks.len(),
        next_line_end(toks, i) < toks.len() ==> ends_line(toks[next_line_end(toks, i)].kind),
        forall|k: int| i <= k < next_line_end(toks, i) ==> !ends_line(#[trigger] toks[k].kind),
    decreases toks.len() - i,
{
    if i < toks.len() && !ends_line(toks[i].kind) {
        lemma_next_line_end(toks, i + 1);
    }
}

// ---------------------------------------------------------------------------
// The iterator.
// ---------------------------------------------------------------------------

/// Iterator that converts a token stream into display lines.
pub struct ViewLineIterator<'a> {
    tokens: &'a [ViewTokenWire],
    token_idx: usize,
    /// How the next line should start (based on what ended the previous line).
    next_line_start: LineStart,
}

impl<'a> ViewLineIterator<'a> {
    /// The token stream being read.
    pub closed spec fn tokens(&self) -> Seq<ViewTokenWire> {
        self.tokens@
    }

    /// Index of the next token to read.
    pub closed spec fn position(&self) -> int {
        self.token_idx as int
    }

    /// How the next line will start.
    pub closed spec fn pending_start(&self) -> LineStart {
        self.next_line_start
    }

    /// Iterator state invariant.
    pub closed spec fn wf(&self) -> bool {
        &&& self.token_idx <= self.tokens@.len()
        &&& stream_fits(self.tokens@)
    }

    /// What the state invariant says: the position lies within the stream
    /// (never past its end), and the stream is one the iterator can process.
    pub proof fn lemma_wf(&self)
        ensures
            0 <= self.position(),
            self.wf() <==> self.position() <= self.tokens().len() && stream_fits(self.tokens()),
    {
    }

    /// Start reading display lines at the beginning of `tokens`.
    pub fn new(tokens: &'a [ViewTokenWire]) -> (it: Self)
        ensures
            it.tokens() == tokens@,
            it.position() == 0,
            it.pending_start() == LineStart::Beginning,
            stream_fits(tokens@) ==> it.wf(),
    {
        Self { tokens, token_idx: 0, next_line_start: LineStart::Beginning }
    }

    /// Read the next display line.
    ///
    /// A line runs up to and including the next Newline or Break token; a
    /// line made of no characters at the very end of the stream is not
    /// returned.
    pub fn next(&mut self) -> (line: Option<ViewLine>)
        requires
            old(self).wf(),
        ensures
            final(self).wf(),
            final(self).tokens() == old(self).tokens(),
            old(self).position() >= old(self).tokens().len() ==> *final(self) == *old(self),
            old(self).position() < old(self).tokens().len() ==> {
                &&& final(self).position() == index_after_line(
                    old(self).tokens(),
                    old(self).position(),
                )
                &&& final(self).pending_start() == start_after_line(
                    old(self).tokens(),
                    old(self).position(),
                    old(self).pending_start(),
                )
                &&& final(self).position() > old(self).position()
            },
            match line {
                Some(l) => produced_line(
                    old(self).tokens(),
                    old(self).position(),
                    old(self).pending_start(),
                ) == Some(l@),
                None => produced_line(
                    old(self).tokens(),
                    old(self).position(),
                    old(self).pending_start(),
                ) is None,
            },
    {
        if self.token_idx >= self.tokens.len() {
            return None;
        }
        let ghost toks = self.tokens@;
        let ghost start_idx = self.token_idx as int;
        let ghost start_state = self.next_line_start;
        proof {
            lemma_next_line_end(toks, start_idx);
        }
        let ghost end_idx = next_line_end(toks, start_idx);

        let line_start = self.next_line_start;
        let mut text = String::new();
        let mut char_mappings: Vec<Option<usize>> = Vec::new();
        let mut char_styles: Vec<Option<ViewTokenStyle>> = Vec::new();
        let mut tab_starts: HashSet<usize> = HashSet::new();
        let mut col = 0usize;
        let mut text_bytes = 0usize;
        let mut ends_with_newline = false;

        proof {
            assert(toks.subrange(start_idx, start_idx) =~= Seq::<ViewTokenWire>::empty());
        }

        // Process tokens until we hit a line break
        while self.token_idx < self.tokens.len()
            invariant_except_break
                start_idx <= self.token_idx <= end_idx,
                !ends_with_newline,
                self.next_line_start == start_state,
                ({
                    let acc = acc_tokens(empty_acc(), toks.subrange(start_idx, self.token_idx as int));
                    &&& !ends_with_newline ==> {
                        &&& text@ == acc.text
                        &&& char_mappings@ == acc.mappings
                        &&& char_styles@ == acc.styles
                    }
                    &&& tab_starts@ == acc.tabs
                    &&& col == acc.col
                    &&& text_bytes == utf8_width_seq(acc.text)
                    &&& acc_shape(acc)
                    &&& acc.col <= stream_weight(toks.subrange(start_idx, self.token_idx as int))
                    &&& utf8_width_seq(acc.text) <= stream_weight(toks.subrange(start_idx, self.token_idx as int))
                }),
            invariant
                self.tokens@ == toks,
                stream_fits(toks),
                0 <= start_idx < toks.len(),
                end_idx == next_line_end(toks, start_idx),
                start_idx <= end_idx <= toks.len(),
                end_idx < toks.len() ==> ends_line(toks[end_idx].kind),
                forall|k: int| start_idx <= k < end_idx ==> !ends_line(#[trigger] toks[k].kind),
                self.token_idx <= toks.len(),
                line_start == start_state,
                obeys_key_model::<usize>(),
            ensures
                ends_with_newline ==> {
                    let acc = acc_tokens(empty_acc(), toks.subrange(start_idx, end_idx));
                    &&& end_idx < toks.len()
                    &&& self.token_idx == end_idx + 1
                    &&& text@ == acc.text.push('\n')
                    &&& char_mappings@ == acc.mappings.push(end_mapping(toks[end_idx]))
                    &&& char_styles@ == acc.styles.push(end_style(toks[end_idx]))
                    &&& tab_starts@ == acc.tabs
                    &&& self.next_line_start == start_after(toks[end_idx])
                },
                !ends_with_newline ==> {
                    let acc = acc_tokens(empty_acc(), toks.subrange(start_idx, end_idx));
                    &&& end_idx == toks.len()
                    &&& self.token_idx == toks.len()
                    &&& text@ == acc.text
                    &&& char_mappings@ == acc.mappings
                    &&& char_styles@ == acc.styles
                    &&& tab_starts@ == acc.tabs
                    &&& self.next_line_start == start_state
                },
            decreases toks.len() - self.token_idx,
        {
            let ghost idx = self.token_idx as int;
            let ghost acc0 = acc_tokens(empty_acc(), toks.subrange(start_idx, idx));
            proof {
                if idx == end_idx {
                    assert(idx < toks.len());
                }
                if idx < end_idx {
                    assert(toks.subrange(start_idx, idx + 1).drop_last() =~= toks.subrange(
                        start_idx,
                        idx,
                    ));
                    assert(toks.subrange(start_idx, idx + 1).last() == toks[idx]);
                    lemma_acc_tokens_shape(empty_acc(), toks.subrange(start_idx, idx + 1));
                    lemma_acc_tokens_shape(empty_acc(), toks.subrange(start_idx, idx));
                    lemma_stream_weight_subrange(toks, start_idx, idx + 1);
                }
            }
            let token = &self.tokens[self.token_idx];
            let token_style = token.style.clone();

            match &token.kind {
                ViewTokenWireKind::Text(t) => {
                    proof {
                        assert(!ends_line(toks[idx].kind));
                        assert(idx < end_idx);
                        lemma_acc_text_shape(acc0, t@, token.source_offset, token_style);
                        lemma_utf8_width_bound(t@);
                    }
                    let base = token.source_offset;
                    let mut byte_idx: usize = 0;
                    let ghost chars = t@;
                    for ch in it: t.chars()
                        invariant
                            chars == t@,
                            it.seq() == chars,
                            acc_shape(acc0),
                            obeys_key_model::<usize>(),
                            acc0.col + 8 * chars.len() <= stream_weight(toks),
                            utf8_width_seq(acc0.text) + 8 * chars.len() <= stream_weight(toks),
                            stream_weight(toks) + 1 <= usize::MAX,
                            utf8_width_seq(chars) <= 4 * chars.len(),
                            base == token.source_offset,
                            token_style == token.style,
                            match base {
                                Some(s) => chars.len() > 0 ==> s + utf8_width_seq(chars.drop_last()) <= usize::MAX,
                                None => true,
                            },
                            ({
                                let acc = acc_text(acc0, chars.take(it.index()), base, token_style);
                                &&& text@ == acc.text
                                &&& char_mappings@ == acc.mappings
                                &&& char_styles@ == acc.styles
                                &&& tab_starts@ == acc.tabs
                                &&& col == acc.col
                                &&& text_bytes == utf8_width_seq(acc.text)
                                &&& acc_shape(acc)
                                &&& acc.col <= acc0.col + 8 * it.index()
                                &&& utf8_width_seq(acc.text) <= utf8_width_seq(acc0.text) + 8 * it.index()
                            }),
                            byte_idx == utf8_width_seq(chars.take(it.index())),
                    {
                        let ghost k = it.index();
                        let ghost acc1 = acc_text(acc0, chars.take(k), base, token_style);
                        proof {
                            assert(chars.take(k + 1).drop_last() =~= chars.take(k));
                            assert(chars.take(k + 1).last() == ch);
                            lemma_acc_char_shape(acc1, ch, offset_by(base, utf8_width_seq(chars.take(k))), token_style);
                            lemma_utf8_width_prefix(chars, k + 1);
                            lemma_utf8_width_prefix(chars.drop_last(), k);
                            assert(chars.drop_last().take(k) =~= chars.take(k));
                        }
                        let ch_len = char_len_utf8(ch);
                        let source = match base {
                            Some(s) => Some(s + byte_idx),
                            None => None,
                        };

                        if ch == '\t' {
                            let tab_start_pos = text_bytes;
                            tab_starts.insert(tab_start_pos);
                            let spaces = tab_expansion_width(col);
                            let ghost text0 = text@;
                            let ghost maps0 = char_mappings@;
                            let ghost styles0 = char_styles@;
                            for j in 0..spaces
                                invariant
                                    text@ == text0 + Seq::new(j as nat, |i: int| ' '),
                                    char_mappings@ == maps0 + Seq::new(j as nat, |i: int| source),
                                    char_styles@ == styles0 + Seq::new(j as nat, |i: int| token_style),
                            {
                                string_push(&mut text, ' ');
                                char_mappings.push(source);
                                char_styles.push(token_style.clone());
                                proof {
                                    assert(text@ =~= text0 + Seq::new((j + 1) as nat, |i: int| ' '));
                                    assert(char_mappings@ =~= maps0 + Seq::new((j + 1) as nat, |i: int| source));
                                    assert(char_styles@ =~= styles0 + Seq::new((j + 1) as nat, |i: int| token_style));
                                }
                            }
                            col += spaces;
                            text_bytes += spaces;
                        } else {
                            string_push(&mut text, ch);
                            char_mappings.push(source);
                            char_styles.push(token_style.clone());
                            col += 1;
                            text_bytes += ch_len;
                        }
                        byte_idx += ch_len;
                        proof {
                            lemma_utf8_width_push(chars.take(k), ch);
                            assert(chars.take(k).push(ch) =~= chars.take(k + 1));
                            let acc2 = acc_text(acc0, chars.take(k + 1), base, token_style);
                            if ch == '\t' {
                                lemma_utf8_width_spaces(acc1.text, tab_width_at(acc1.col));
                            } else {
                                lemma_utf8_width_push(acc1.text, ch);
                            }
                        }
                    }
                    proof {
                        assert(chars.take(chars.len() as int) =~= chars);
                    }
                    self.token_idx += 1;
                },
                ViewTokenWireKind::Space => {
                    proof {
                        assert(idx < end_idx);
                        lemma_utf8_width_push(acc0.text, ' ');
                    }
                    string_push(&mut text, ' ');
                    char_mappings.push(token.source_offset);
                    char_styles.push(token_style);
                    col += 1;
                    text_bytes += 1;
                    self.token_idx += 1;
                },
                ViewTokenWireKind::Newline => {
                    proof {
                        assert(idx == end_idx);
                    }
                    // Newline ends this line
                    string_push(&mut text, '\n');
                    char_mappings.push(token.source_offset);
                    char_styles.push(token_style);
                    ends_with_newline = true;

                    // Determine how the next line starts
                    self.next_line_start = if token.source_offset.is_some() {
                        LineStart::AfterSourceNewline
                    } else {
                        LineStart::AfterInjectedNewline
                    };
                    self.token_idx += 1;
                    break;
                },
                ViewTokenWireKind::Break => {
                    proof {
                        assert(idx == end_idx);
                    }
                    // Break is a synthetic line break from wrapping
                    string_push(&mut text, '\n');
                    char_mappings.push(None);
                    char_styles.push(None);
                    ends_with_newline = true;

                    self.next_line_start = LineStart::AfterBreak;
                    self.token_idx += 1;
                    break;
                },
            }
        }

        // Don't return empty lines at the end
        if text.as_str().is_empty() && self.token_idx >= self.tokens.len() {
            return None;
        }

        Some(ViewLine { text, char_mappings, char_styles, tab_starts, line_start, ends_with_newline })
    }
}

/// All display lines read from token `i` on, until the stream is used up.
pub open spec fn lines_from(toks: Seq<ViewTokenWire>, i: int, start: LineStart) -> Seq<ViewLineModel>
    decreases toks.len() - i,
{
    if i < 0 || i >= toks.len() {
        Seq::empty()
    } else {
        proof {
            lemma_next_line_end(toks, i);
        }
        let rest = lines_from(toks, index_after_line(toks, i), start_after_line(toks, i, start));
        match produced_line(toks, i, start) {
            Some(l) => seq![l] + rest,
            None => rest,
        }
    }
}

impl<'a> ViewLineIterator<'a> {
    /// Read all remaining display lines, in order.
    pub fn collect_lines(self) -> (lines: Vec<ViewLine>)
        requires
            self.wf(),
        ensures
            lines@.map_values(|l: ViewLine| l@) == lines_from(
                self.tokens(),
                self.position(),
                self.pending_start(),
            ),
    {
        let mut it = self;
        let mut lines: Vec<ViewLine> = Vec::new();
        loop
            invariant
                it.wf(),
                it.tokens() == self.tokens(),
                lines@.map_values(|l: ViewLine| l@) + lines_from(
                    it.tokens(),
                    it.position(),
                    it.pending_start(),
                ) == lines_from(self.tokens(), self.position(), self.pending_start()),
            decreases it.tokens().len() - it.position(),
        {
            let ghost before = it;
            match it.next() {
                Some(line) => {
                    proof {
                        let rest = lines_from(it.tokens(), it.position(), it.pending_start());
                        assert(lines_from(before.tokens(), before.position(), before.pending_start())
                            == seq![line@] + rest);
                        assert(lines@.push(line).map_values(|l: ViewLine| l@) =~= lines@.map_values(
                            |l: ViewLine| l@,
                        ).push(line@));
                        assert(lines@.map_values(|l: ViewLine| l@).push(line@) + rest =~= lines@.map_values(
                            |l: ViewLine| l@,
                        ) + (seq![line@] + rest));
                    }
                    lines.push(line);
                },
                None => {
                    proof {
                        if before.position() < before.tokens().len() {
                            assert(it.position() >= it.tokens().len());
                        }
                        assert(lines_from(it.tokens(), it.position(), it.pending_start()) =~= Seq::<
                            ViewLineModel,
                        >::empty());
                        assert(lines@.map_values(|l: ViewLine| l@) + Seq::<ViewLineModel>::empty()
                            =~= lines@.map_values(|l: ViewLine| l@));
                    }
                    return lines;
                },
            }
        }
    }
}

// ---------------------------------------------------------------------------
// Laws of the line structure.
// ---------------------------------------------------------------------------

/// Number of line-ending (Newline or Break) tokens.
pub open spec fn count_line_ends(toks: Seq<ViewTokenWire>) -> nat
    decreases toks.len(),
{
    if toks.len() == 0 {
        0
    } else {
        count_line_ends(toks.drop_last()) + if ends_line(toks.last().kind) {
            1nat
        } else {
            0
        }
    }
}

/// Index just after the last line-ending token at or after `i` (or `i` itself
/// when there is none): where the trailing, unterminated tokens begin.
pub open spec fn trailing_start(toks: Seq<ViewTokenWire>, i: int) -> int
    decreases toks.len() - i,
{
    if i < 0 || i >= toks.len() {
        i
    } else {
        let e = next_line_end(toks, i);
        if e < toks.len() && e >= i {
            trailing_start(toks, e + 1)
        } else {
            i
        }
    }
}

proof fn lemma_count_line_ends_append(a: Seq<ViewTokenWire>, b: Seq<ViewTokenWire>)
    ensures
        count_line_ends(a + b) == count_line_ends(a) + count_line_ends(b),
    decreases b.len(),
{
    if b.len() == 0 {
        assert(a + b =~= a);
    } else {
        lemma_count_line_ends_append(a, b.drop_last());
        assert((a + b).drop_last() =~= a + b.drop_last());
    }
}

proof fn lemma_count_no_ends(toks: Seq<ViewTokenWire>)
    requires
        forall|k: int| 0 <= k < toks.len() ==> !ends_line(#[trigger] toks[k].kind),
    ensures
        count_line_ends(toks) == 0,
    decreases toks.len(),
{
    if toks.len() > 0 {
        lemma_count_no_ends(toks.drop_last());
    }
}

/// The number of display lines read from token `i` on is the number of
/// line-ending tokens from `i` on, plus one when the tokens after the last
/// of them display some text.
pub proof fn law_line_count(toks: Seq<ViewTokenWire>, i: int, start: LineStart)
    requires
        0 <= i <= toks.len(),
    ensures
        lines_from(toks, i, start).len() == count_line_ends(toks.subrange(i, toks.len() as int)) + (
        if acc_tokens(
            empty_acc(),
            toks.subrange(trailing_start(toks, i), toks.len() as int),
        ).text.len() > 0 {
            1nat
        } else {
            0
        }),
    decreases toks.len() - i,
{
    if i == toks.len() {
        assert(toks.subrange(i, i).len() == 0);
        assert(toks.subrange(i, i) =~= Seq::<ViewTokenWire>::empty());
        assert(acc_tokens(empty_acc(), Seq::<ViewTokenWire>::empty()) == empty_acc());
    } else {
        lemma_next_line_end(toks, i);
        let e = next_line_end(toks, i);
        let n = toks.len() as int;
        if e < n {
            law_line_count(toks, e + 1, start_after(toks[e]));
            // the tokens from i split at the line end
            assert(toks.subrange(i, n) =~= toks.subrange(i, e) + (seq![toks[e]] + toks.subrange(
                e + 1,
                n,
            )));
            lemma_count_line_ends_append(
                toks.subrange(i, e),
                seq![toks[e]] + toks.subrange(e + 1, n),
            );
            lemma_count_line_ends_append(seq![toks[e]], toks.subrange(e + 1, n));
            lemma_count_no_ends(toks.subrange(i, e));
            assert(seq![toks[e]].drop_last() =~= Seq::<ViewTokenWire>::empty());
            assert(seq![toks[e]].last() == toks[e]);
            assert(count_line_ends(Seq::<ViewTokenWire>::empty()) == 0);
            assert(ends_line(toks[e].kind));
            assert(count_line_ends(seq![toks[e]]) == 1);
            let line = line_at(toks, i, start);
            assert(line.text.len() > 0);
            assert(produced_line(toks, i, start) == Some(line));
        } else {
            assert(e == n);
            lemma_count_no_ends(toks.subrange(i, n));
            assert(trailing_start(toks, i) == i);
            assert(index_after_line(toks, i) == n);
            assert(lines_from(toks, n, start_after_line(toks, i, start)).len() == 0);
        }
    }
}

/// Every display line shows at least one character, and has one source
/// mapping and one style per character.
pub proof fn law_line_lengths(toks: Seq<ViewTokenWire>, i: int, start: LineStart)
    requires
        0 <= i < toks.len(),
    ensures
        produced_line(toks, i, start) matches Some(l) ==> {
            &&& l.text.len() > 0
            &&& l.char_mappings.len() == l.text.len()
            &&& l.char_styles.len() == l.text.len()
        },
{
    lemma_next_line_end(toks, i);
    let e = next_line_end(toks, i);
    lemma_acc_tokens_shape(empty_acc(), toks.subrange(i, e));
}

/// A line ends with a newline exactly when its run of tokens ended with a
/// Newline or Break token; the newline is then its last character, and
/// every line but the last of the view ends with one.
pub proof fn law_line_ends(toks: Seq<ViewTokenWire>, i: int, start: LineStart)
    requires
        0 <= i < toks.len(),
    ensures
        produced_line(toks, i, start) matches Some(l) ==> {
            &&& l.ends_with_newline <==> next_line_end(toks, i) < toks.len()
            &&& l.ends_with_newline ==> l.text.last() == '\n'
            &&& !l.ends_with_newline ==> index_after_line(toks, i) == toks.len()
        },
{
}

/// The source offset of the character that starts `k` bytes into a token
/// whose first byte is at `base`.
pub open spec fn source_at(base: Option<usize>, k: nat) -> Option<usize> {
    match base {
        Some(b) => Some((b + k) as usize),
        None => None,
    }
}

/// A run of text without tabs shows its characters as they are, one cell
/// each: the cell of the character `b` bytes into the token maps to the
/// token's offset plus `b`, every cell has the token's style, and the
/// column advances by one per character.
pub proof fn law_text_cells(acc: LineAcc, chars: Seq<char>, base: Option<usize>, st: Option<ViewTokenStyle>)
    requires
        forall|j: int| 0 <= j < chars.len() ==> #[trigger] chars[j] != '\t',
    ensures
        acc_text(acc, chars, base, st).text == acc.text + chars,
        acc_text(acc, chars, base, st).mappings == acc.mappings + Seq::new(
            chars.len(),
            |j: int| source_at(base, utf8_width_seq(chars.take(j))),
        ),
        acc_text(acc, chars, base, st).styles == acc.styles + Seq::new(chars.len(), |j: int| st),
        acc_text(acc, chars, base, st).tabs == acc.tabs,
        acc_text(acc, chars, base, st).col == acc.col + chars.len(),
    decreases chars.len(),
{
    if chars.len() > 0 {
        let d = chars.drop_last();
        assert forall|j: int| 0 <= j < d.len() implies #[trigger] d[j] != '\t' by {
            assert(d[j] == chars[j]);
        }
        law_text_cells(acc, d, base, st);
        assert(chars.last() == chars[chars.len() - 1]);
        assert(d.push(chars.last()) =~= chars);
        assert(chars.take(chars.len() - 1) =~= d);
        assert(acc.text + d + seq![chars.last()] =~= acc.text + chars);
        assert(acc.mappings + Seq::new(d.len(), |j: int| source_at(base, utf8_width_seq(d.take(j)))) + seq![
            source_at(base, utf8_width_seq(d)),
        ] =~= acc.mappings + Seq::new(chars.len(), |j: int| source_at(base, utf8_width_seq(chars.take(j))))) by {
            assert forall|j: int| 0 <= j < d.len() implies #[trigger] d.take(j) == chars.take(j) by {
                assert(d.take(j) =~= chars.take(j));
            }
        }
        assert(acc.styles + Seq::new(d.len(), |j: int| st) + seq![st] =~= acc.styles + Seq::new(
            chars.len(),
            |j: int| st,
        ));
        assert(offset_by(base, utf8_width_seq(d)) == source_at(base, utf8_width_seq(d)));
    } else {
        assert(acc.text + chars =~= acc.text);
        assert(acc.mappings + Seq::new(0, |j: int| source_at(base, utf8_width_seq(chars.take(j))))
            =~= acc.mappings);
        assert(acc.styles + Seq::new(0, |j: int| st) =~= acc.styles);
    }
}

/// A tab shows as spaces up to the next multiple of eight columns (one to
/// eight of them), each mapped to the tab's source offset with the token's
/// style, and records the byte offset in the line's text where they begin.
pub proof fn law_tab_cells(acc: LineAcc, m: Option<usize>, st: Option<ViewTokenStyle>)
    ensures
        ({
            let n = (8 - acc.col % 8) as nat;
            let r = acc_char(acc, '\t', m, st);
            &&& 1 <= n <= 8
            &&& (acc.col + n) % 8 == 0
            &&& r.text == acc.text + Seq::new(n, |j: int| ' ')
            &&& r.mappings == acc.mappings + Seq::new(n, |j: int| m)
            &&& r.styles == acc.styles + Seq::new(n, |j: int| st)
            &&& r.tabs == acc.tabs.insert(utf8_width_seq(acc.text) as usize)
            &&& r.col == acc.col + n
        }),
{
}

/// A space token shows as one space, mapped to the token's source offset
/// with its style; an empty text token shows nothing.
pub proof fn law_space_and_empty_cells(acc: LineAcc, tok: ViewTokenWire)
    ensures
        tok.kind is Space ==> acc_token(acc, tok).text == acc.text.push(' ') && acc_token(acc, tok).mappings
            == acc.mappings.push(tok.source_offset) && acc_token(acc, tok).styles == acc.styles.push(
            tok.style,
        ),
        (tok.kind matches ViewTokenWireKind::Text(t) && t@.len() == 0) ==> acc_token(acc, tok) == acc,
{
}

/// A line runs up to the first Newline or Break token at or after where it
/// starts, and that token gives the line's last character, a newline: a
/// Newline token maps it to the token's source offset and gives it the
/// token's style; a Break (a wrap) maps it to no source and gives no style.
pub proof fn law_line_end_cell(toks: Seq<ViewTokenWire>, i: int, start: LineStart)
    requires
        0 <= i < toks.len(),
    ensures
        ({
            let e = next_line_end(toks, i);
            &&& i <= e <= toks.len()
            &&& forall|k: int| i <= k < e ==> !(#[trigger] toks[k].kind is Newline) && !(toks[k].kind is Break)
            &&& e < toks.len() ==> toks[e].kind is Newline || toks[e].kind is Break
            &&& e < toks.len() ==> (produced_line(toks, i, start) matches Some(l) && {
                &&& l.text.last() == '\n'
                &&& l.ends_with_newline
                &&& toks[e].kind is Newline ==> l.char_mappings.last() == toks[e].source_offset
                    && l.char_styles.last() == toks[e].style
                &&& toks[e].kind is Break ==> l.char_mappings.last() is None && l.char_styles.last() is None
            })
        }),
{
    lemma_next_line_end(toks, i);
}

/// Reading lines always gets on: a read that starts before the end uses up
/// at least one token, a read that gives no line uses up the rest of the
/// stream, and a read at the end gives no line.  So a stream of `n` tokens
/// gives at most `n` lines.
pub proof fn law_reads_progress(toks: Seq<ViewTokenWire>, i: int, start: LineStart)
    requires
        0 <= i <= toks.len(),
    ensures
        i < toks.len() ==> i < index_after_line(toks, i) <= toks.len(),
        i < toks.len() && produced_line(toks, i, start) is None ==> index_after_line(toks, i)
            == toks.len(),
        i == toks.len() ==> produced_line(toks, i, start) is None,
        lines_from(toks, i, start).len() <= toks.len() - i,
    decreases toks.len() - i,
{
    if i < toks.len() {
        lemma_next_line_end(toks, i);
        law_reads_progress(toks, index_after_line(toks, i), start_after_line(toks, i, start));
    }
}

/// The first line of a view starts at the beginning; a later line starts
/// after the line-ending token that closed the line before it.
pub proof fn law_line_starts(toks: Seq<ViewTokenWire>, i: int, start: LineStart)
    requires
        0 <= i < toks.len(),
    ensures
        produced_line(toks, i, start) matches Some(l) ==> l.line_start == start,
        next_line_end(toks, i) < toks.len() ==> start_after_line(toks, i, start) == start_after(
            toks[next_line_end(toks, i)],
        ),
{
}

/// Whether a display line shows a line number in the gutter: wrapped
/// continuations never do; an empty line does when it begins the view or
/// follows a source newline; otherwise it does when its first character comes
/// from the source (injected content such as headers gets none).
pub open spec fn shows_line_number(line: ViewLineModel) -> bool {
    if line.line_start == LineStart::AfterBreak {
        false
    } else if line.char_mappings.len() == 0 {
        line.line_start == LineStart::Beginning || line.line_start == LineStart::AfterSourceNewline
    } else {
        line.char_mappings[0] is Some
    }
}

/// Determine if a display line should show a line number.
pub fn should_show_line_number(line: &ViewLine) -> (r: bool)
    ensures
        r == shows_line_number(line@),
{
    // Wrapped continuations never show line numbers
    if line.line_start.is_continuation() {
        return false;
    }

    // An empty line is NOT injected if it's at the beginning or after a source newline
    if line.char_mappings.len() == 0 {
        return matches!(line.line_start, LineStart::Beginning | LineStart::AfterSourceNewline);
    }

    let first_char_is_source = match line.char_mappings.as_slice().first() {
        Some(m) => m.is_some(),
        None => false,
    };

    if !first_char_is_source {
        // Injected line (header, etc.) - no line number
        return false;
    }

    // Source content after a real line break - show line number
    true
}

} // verus!
