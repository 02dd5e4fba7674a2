//! Tokenizer for the RES layout description language.
//!
//! A layout source text is split into symbols at line breaks, `,`, `;`
//! and `/* ... */` comments; spaces and tabs may stand inside a symbol
//! and are trimmed off its ends.  The reader keeps a cursor into the
//! text, hands out
//! one symbol at a time, and reports the line/column position of the last
//! symbol it consumed.  The exact splitting rules are captured by the spec
//! functions in this module; `StrRead` implements them.

use vstd::prelude::*;
use vstd::string::StrSliceExecFns;

verus! {

/// Largest source text the reader accepts, so that scan arithmetic stays
/// inside `usize`.
pub const MAX_SRC_LEN: usize = 0x0fff_ffff;

/// Characters that separate symbols when they stand between them.
pub open spec fn is_ws_char(c: char) -> bool {
    c == ' ' || c == '\t' || c == '\r' || c == '\n'
}

/// A line break character; `\r\n` counts as a single break for positions.
pub open spec fn is_break_char(c: char) -> bool {
    c == '\r' || c == '\n'
}

/// The two delimiter characters, which form one-character symbols.
pub open spec fn is_delim_char(c: char) -> bool {
    c == ',' || c == ';'
}

/// True when a `/*` comment opens at index `i`.
pub open spec fn is_comment_start(s: Seq<char>, i: int) -> bool {
    i + 1 < s.len() && s[i] == '/' && s[i + 1] == '*'
}

/// Index of the first non-whitespace character at or after `i`.
pub open spec fn skip_ws(s: Seq<char>, i: int) -> int
    decreases s.len() - i,
{
    if 0 <= i < s.len() && is_ws_char(s[i]) {
        skip_ws(s, i + 1)
    } else {
        i
    }
}

pub proof fn lemma_skip_ws(s: Seq<char>, i: int)
    requires
        0 <= i <= s.len(),
    ensures
        i <= skip_ws(s, i) <= s.len(),
        skip_ws(s, i) < s.len() ==> !is_ws_char(s[skip_ws(s, i)]),
    decreases s.len() - i,
{
    if i < s.len() && is_ws_char(s[i]) {
        lemma_skip_ws(s, i + 1);
    }
}

/// Index just past the first `*/` at or after `i`, or `None` when the
/// comment never closes.
pub open spec fn comment_end(s: Seq<char>, i: int) -> Option<int>
    decreases s.len() - i,
{
    if 0 <= i && i + 1 < s.len() {
        if s[i] == '*' && s[i + 1] == '/' {
            Some(i + 2)
        } else {
            comment_end(s, i + 1)
        }
    } else {
        None
    }
}

pub proof fn lemma_comment_end(s: Seq<char>, i: int)
    requires
        0 <= i,
    ensures
        comment_end(s, i) is Some ==> i + 2 <= comment_end(s, i)->0 <= s.len(),
    decreases s.len() - i,
{
    if i + 1 < s.len() && !(s[i] == '*' && s[i + 1] == '/') {
        lemma_comment_end(s, i + 1);
    }
}

/// Start index of the next symbol at or after `i`: skips whitespace and
/// comments that open exactly at the scan start.  `None` when only
/// whitespace remains or a comment never closes.
pub open spec fn scan_start(s: Seq<char>, i: int) -> Option<int>
    decreases s.len() - i, 1int,
    when 0 <= i <= s.len()
    via scan_start_decreases
{
    let j = skip_ws(s, i);
    if j >= s.len() {
        None
    } else if is_comment_start(s, j) {
        match comment_end(s, j + 2) {
            None => None,
            Some(k) => scan_start(s, k),
        }
    } else {
        Some(j)
    }
}

#[via_fn]
proof fn scan_start_decreases(s: Seq<char>, i: int) {
    lemma_skip_ws(s, i);
    let j = skip_ws(s, i);
    if j < s.len() && is_comment_start(s, j) {
        lemma_comment_end(s, j + 2);
    }
}

pub proof fn lemma_scan_start(s: Seq<char>, i: int)
    requires
        0 <= i <= s.len(),
    ensures
        scan_start(s, i) is Some ==> {
            let j = scan_start(s, i)->0;
            &&& i <= j < s.len()
            &&& !is_ws_char(s[j])
            &&& !is_comment_start(s, j)
        },
    decreases s.len() - i,
{
    lemma_skip_ws(s, i);
    let j = skip_ws(s, i);
    if j < s.len() && is_comment_start(s, j) {
        lemma_comment_end(s, j + 2);
        if let Some(k) = comment_end(s, j + 2) {
            lemma_scan_start(s, k);
        }
    }
}

/// First index at or after `j` where a symbol that began earlier must end:
/// a line break, a delimiter, a comment opening, or the end of the text.
/// Spaces and tabs pass through a symbol; [`back_trim`] strips them off
/// its tail.
pub open spec fn token_end(s: Seq<char>, j: int) -> int
    decreases s.len() - j,
{
    if !(0 <= j < s.len()) {
        j
    } else if is_break_char(s[j]) || is_delim_char(s[j]) || is_comment_start(s, j) {
        j
    } else {
        token_end(s, j + 1)
    }
}

pub proof fn lemma_token_end(s: Seq<char>, j: int)
    requires
        0 <= j <= s.len(),
    ensures
        j <= token_end(s, j) <= s.len(),
    decreases s.len() - j,
{
    if j < s.len() && !(is_break_char(s[j]) || is_delim_char(s[j]) || is_comment_start(s, j)) {
        lemma_token_end(s, j + 1);
    }
}

/// Trims trailing spaces and tabs: the largest `e' <= e` with no space or
/// tab just before it (never below `st`).
pub open spec fn back_trim(s: Seq<char>, st: int, e: int) -> int
    decreases e - st,
{
    if st < e <= s.len() && 0 <= st && (s[e - 1] == ' ' || s[e - 1] == '\t') {
        back_trim(s, st, e - 1)
    } else {
        e
    }
}

pub proof fn lemma_back_trim(s: Seq<char>, st: int, e: int)
    requires
        0 <= st <= e <= s.len(),
        st < s.len() && !is_ws_char(s[st]),
    ensures
        st <= back_trim(s, st, e) <= e,
        st < e ==> st < back_trim(s, st, e),
    decreases e - st,
{
    if st < e && (s[e - 1] == ' ' || s[e - 1] == '\t') {
        lemma_back_trim(s, st, e - 1);
    }
}

/// One raw scan step, before the empty-symbol rule: the symbol's start and
/// end indices and the cursor position after it.  `None` at the end of the
/// input.
pub open spec fn scan_token(s: Seq<char>, i: int) -> Option<(int, int, int)> {
    match scan_start(s, i) {
        None => None,
        Some(st) => if is_delim_char(s[st]) {
            Some((st, st + 1, st + 1))
        } else {
            let e = token_end(s, st + 1);
            Some((st, back_trim(s, st, e), e))
        },
    }
}

pub proof fn lemma_scan_token(s: Seq<char>, i: int)
    requires
        0 <= i <= s.len(),
    ensures
        scan_token(s, i) is Some ==> {
            let (st, e, nx) = scan_token(s, i)->0;
            &&& i <= st < e <= s.len()
            &&& st < nx <= s.len()
            &&& e <= nx
        },
{
    lemma_scan_start(s, i);
    if let Some(st) = scan_start(s, i) {
        if !is_delim_char(s[st]) {
            lemma_token_end(s, st + 1);
            lemma_back_trim(s, st, token_end(s, st + 1));
        }
    }
}

/// The outcome of one `next_sym` call.
pub ghost struct SymStep {
    /// The symbol text handed back, empty on a collapsed delimiter.
    pub tok: Seq<char>,
    /// Start index of the scanned symbol in the source.
    pub off: int,
    /// Cursor position after the call.
    pub next: int,
    /// Whether the symbol counts as a delimiter for the next call.
    pub delim: bool,
    /// True when this was a delimiter right after another delimiter, so the
    /// empty symbol was returned in its place and the cursor did not move.
    pub collapse: bool,
}

/// One full `next_sym` step.  A delimiter that directly follows a returned
/// delimiter collapses: the empty symbol comes back, the cursor stays, and
/// the delimiter itself is handed out by the following call.
pub open spec fn sym_step(s: Seq<char>, i: int, prev_delim: bool) -> Option<SymStep> {
    match scan_token(s, i) {
        None => None,
        Some((st, e, nx)) => {
            if is_delim_char(s[st]) && prev_delim {
                Some(SymStep { tok: Seq::empty(), off: st, next: i, delim: false, collapse: true })
            } else {
                Some(
                    SymStep {
                        tok: s.subrange(st, e),
                        off: st,
                        next: nx,
                        delim: is_delim_char(s[st]),
                        collapse: false,
                    },
                )
            }
        },
    }
}

/// A symbol as the parser sees it: its text and the source index it
/// started at.
pub ghost struct TokG {
    pub text: Seq<char>,
    pub off: int,
}

/// All symbols from cursor `i` (with delimiter flag `prev`) to the end of
/// the input.
pub open spec fn token_list(s: Seq<char>, i: int, prev: bool) -> Seq<TokG>
    decreases s.len() - i, (if prev { 1int } else { 0int }),
    when 0 <= i <= s.len()
    via token_list_decreases
{
    match sym_step(s, i, prev) {
        None => Seq::empty(),
        Some(step) => seq![TokG { text: step.tok, off: step.off }] + token_list(
            s,
            step.next,
            step.delim,
        ),
    }
}

#[via_fn]
proof fn token_list_decreases(s: Seq<char>, i: int, prev: bool) {
    lemma_scan_token(s, i);
}

/// Facts about one step: the empty symbol comes back exactly on a
/// collapse, and everything stays inside the source.
pub proof fn lemma_sym_step_props(s: Seq<char>, i: int, prev: bool)
    requires
        0 <= i <= s.len(),
    ensures
        match sym_step(s, i, prev) {
            None => true,
            Some(step) => {
                &&& (step.collapse <==> step.tok.len() == 0)
                &&& step.tok.len() <= s.len()
                &&& 0 <= step.next <= s.len()
                &&& 0 <= step.off < s.len()
            },
        },
{
    lemma_scan_token(s, i);
}

pub proof fn lemma_token_list_unfold(s: Seq<char>, i: int, prev: bool)
    requires
        0 <= i <= s.len(),
    ensures
        match sym_step(s, i, prev) {
            None => token_list(s, i, prev).len() == 0,
            Some(step) => {
                &&& token_list(s, i, prev).len() >= 1
                &&& token_list(s, i, prev)[0] == TokG { text: step.tok, off: step.off }
                &&& token_list(s, i, prev).drop_first() == token_list(s, step.next, step.delim)
                &&& 0 <= step.next <= s.len()
            },
        },
{
    lemma_scan_token(s, i);
    if let Some(step) = sym_step(s, i, prev) {
        assert(token_list(s, i, prev).drop_first() =~= token_list(s, step.next, step.delim));
    }
}

/// Line and column of source index `off`, counted from `(line, col)` at
/// index `i`.  A tab advances the column by four; `\r\n` is one line break.
pub open spec fn pos_from(s: Seq<char>, i: int, off: int, line: int, col: int) -> (int, int)
    decreases s.len() - i,
{
    if i >= off || !(0 <= i < s.len()) {
        (line, col)
    } else if s[i] == '\r' {
        if i + 1 < s.len() && s[i + 1] == '\n' {
            pos_from(s, i + 2, off, line + 1, 1)
        } else {
            pos_from(s, i + 1, off, line + 1, 1)
        }
    } else if s[i] == '\n' {
        pos_from(s, i + 1, off, line + 1, 1)
    } else if s[i] == '\t' {
        pos_from(s, i + 1, off, line, col + 4)
    } else {
        pos_from(s, i + 1, off, line, col + 1)
    }
}

/// Line of source index `off`, one-based.
pub open spec fn line_of(s: Seq<char>, off: int) -> int {
    pos_from(s, 0, off, 1, 1).0
}

/// Column of source index `off`, one-based.
pub open spec fn col_of(s: Seq<char>, off: int) -> int {
    pos_from(s, 0, off, 1, 1).1
}

/// One-based line/column position inside a layout source text.
#[derive(PartialEq, Eq, Structural, Copy, Clone, Debug)]
pub struct Position {
    pub line: usize,
    pub column: usize,
}

impl Position {
    /// The one-based line number.
    pub fn line(&self) -> (r: usize)
        ensures
            r == self.line,
    {
        self.line
    }

    /// The one-based column number.
    pub fn column(&self) -> (r: usize)
        ensures
            r == self.column,
    {
        self.column
    }
}

/// A source of symbols for the layout parser.
pub trait Read<'a> {
    /// The text being read.
    spec fn src(&self) -> Seq<char>;

    /// Current cursor index into the text.
    spec fn cursor(&self) -> int;

    /// Whether the last returned symbol was a delimiter.
    spec fn prev_delim(&self) -> bool;

    /// Start index of the last consumed symbol.
    spec fn mark(&self) -> int;

    /// Internal consistency.
    spec fn wf(&self) -> bool;

    /// The symbols still to come.
    open spec fn rem(&self) -> Seq<TokG> {
        token_list(self.src(), self.cursor(), self.prev_delim())
    }

    /// Returns the next symbol without consuming it.
    fn peek_sym(&self) -> (r: Option<&'a str>)
        requires
            self.wf(),
        ensures
            match sym_step(self.src(), self.cursor(), self.prev_delim()) {
                None => r is None,
                Some(step) => r is Some && r->0@ == step.tok,
            };

    /// Consumes and returns the next symbol.
    fn next_sym(&mut self) -> (r: Option<&'a str>)
        requires
            old(self).wf(),
        ensures
            final(self).wf(),
            final(self).src() == old(self).src(),
            match sym_step(old(self).src(), old(self).cursor(), old(self).prev_delim()) {
                None => {
                    &&& r is None
                    &&& final(self).cursor() == old(self).cursor()
                    &&& final(self).prev_delim() == old(self).prev_delim()
                    &&& final(self).mark() == old(self).mark()
                },
                Some(step) => {
                    &&& r is Some
                    &&& r->0@ == step.tok
                    &&& final(self).cursor() == step.next
                    &&& final(self).prev_delim() == step.delim
                    &&& final(self).mark() == (if step.collapse {
                        old(self).mark()
                    } else {
                        step.off
                    })
                },
            };

    /// Position of the last consumed symbol.
    fn position(&self) -> (p: Position)
        requires
            self.wf(),
        ensures
            p.line == line_of(self.src(), self.mark()),
            p.column == col_of(self.src(), self.mark());
}

/// Mutable part of a [`StrRead`].
pub struct StrReadState {
    /// Cursor: index of the next character to scan.
    pub pos: usize,
    /// Whether the last returned symbol was a delimiter.
    pub prev_delim: bool,
    /// Start index of the last consumed symbol.
    pub latest_offset: usize,
}

/// Reads symbols out of a borrowed source text.
pub struct StrRead<'a> {
    string: &'a str,
    chars: Vec<char>,
    state: StrReadState,
}

impl<'a> StrRead<'a> {
    pub closed spec fn spec_src(&self) -> Seq<char> {
        self.string@
    }

    pub closed spec fn spec_cursor(&self) -> int {
        self.state.pos as int
    }

    pub closed spec fn spec_prev_delim(&self) -> bool {
        self.state.prev_delim
    }

    pub closed spec fn spec_mark(&self) -> int {
        self.state.latest_offset as int
    }

    /// The symbols still to come from the current state.
    pub open spec fn spec_rem(&self) -> Seq<TokG> {
        token_list(self.spec_src(), self.spec_cursor(), self.spec_prev_delim())
    }

    pub closed spec fn spec_wf(&self) -> bool {
        &&& self.chars@ == self.string@
        &&& self.chars@.len() <= MAX_SRC_LEN
        &&& self.state.pos <= self.chars@.len()
        &&& self.state.latest_offset <= self.chars@.len()
    }

    /// Bounds that well-formedness keeps on the reader's state.
    pub proof fn lemma_wf_bounds(&self)
        requires
            self.spec_wf(),
        ensures
            0 <= self.spec_cursor() <= self.spec_src().len(),
            0 <= self.spec_mark() <= self.spec_src().len(),
            self.spec_src().len() <= MAX_SRC_LEN,
    {
    }

    /// Makes a reader that starts at the beginning of `string`.
    pub fn new(string: &'a str) -> (r: StrRead<'a>)
        requires
            string@.len() <= MAX_SRC_LEN,
        ensures
            r.spec_wf(),
            r.spec_src() == string@,
            r.spec_cursor() == 0,
            r.spec_prev_delim() == false,
            r.spec_mark() == 0,
    {
        let n = string.unicode_len();
        let mut chars: Vec<char> = Vec::new();
        let mut i: usize = 0;
        while i < n
            invariant
                n == string@.len(),
                i <= n,
                chars@ =~= string@.subrange(0, i as int),
            decreases n - i,
        {
            chars.push(string.get_char(i));
            i = i + 1;
        }
        assert(chars@ =~= string@);
        StrRead {
            string,
            chars,
            state: StrReadState { pos: 0, prev_delim: false, latest_offset: 0 },
        }
    }

    /// Index just past the first `*/` at or after `from`, or `None` when
    /// the comment never closes.
    fn find_comment_close(&self, from: usize) -> (r: Option<usize>)
        requires
            self.spec_wf(),
            from <= self.spec_src().len(),
        ensures
            match comment_end(self.spec_src(), from as int) {
                None => r is None,
                Some(k) => r == Some(k as usize),
            },
    {
        let ghost s = self.spec_src();
        let n = self.chars.len();
        let mut q = from;
        loop
            invariant
                self.spec_wf(),
                s == self.spec_src(),
                n == s.len(),
                from <= q <= n,
                comment_end(s, q as int) == comment_end(s, from as int),
            decreases n - q,
        {
            if q + 1 < n {
                if self.chars[q] == '*' && self.chars[q + 1] == '/' {
                    return Some(q + 2);
                }
                q = q + 1;
            } else {
                return None;
            }
        }
    }

    /// Skips whitespace and comments from `i`; the start of the next
    /// symbol, or `None` at the end of the input.
    fn find_start(&self, i: usize) -> (r: Option<usize>)
        requires
            self.spec_wf(),
            i <= self.spec_src().len(),
        ensures
            match scan_start(self.spec_src(), i as int) {
                None => r is None,
                Some(st) => r == Some(st as usize),
            },
    {
        let ghost s = self.spec_src();
        let n = self.chars.len();
        let mut p = i;
        loop
            invariant
                self.spec_wf(),
                s == self.spec_src(),
                n == s.len(),
                p <= n,
                scan_start(s, p as int) == scan_start(s, i as int),
            decreases n - p,
        {
            let ghost p0 = p as int;
            while p < n && is_ws(self.chars[p])
                invariant
                    self.spec_wf(),
                    s == self.spec_src(),
                    n == s.len(),
                    p <= n,
                    skip_ws(s, p as int) == skip_ws(s, p0),
                decreases n - p,
            {
                p = p + 1;
            }
            assert(skip_ws(s, p0) == p as int);
            proof {
                lemma_skip_ws(s, p0);
            }
            if p >= n {
                return None;
            }
            if self.chars[p] == '/' && p + 1 < n && self.chars[p + 1] == '*' {
                // A comment opening exactly at the scan start is skipped
                // up to the first `*/`.
                match self.find_comment_close(p + 2) {
                    None => {
                        return None;
                    },
                    Some(k) => {
                        proof {
                            lemma_comment_end(s, p + 2int);
                        }
                        p = k;
                    },
                }
            } else {
                assert(!is_comment_start(s, p as int));
                assert(scan_start(s, i as int) == Some(p as int));
                return Some(p);
            }
        }
    }

    /// Scans the next raw symbol from the cursor without touching any
    /// state.
    fn scan(&self) -> (r: Option<(usize, usize, usize)>)
        requires
            self.spec_wf(),
        ensures
            match scan_token(self.spec_src(), self.spec_cursor()) {
                None => r is None,
                Some((st, e, nx)) => r == Some((st as usize, e as usize, nx as usize)),
            },
    {
        let ghost s = self.spec_src();
        let n = self.chars.len();
        let st = match self.find_start(self.state.pos) {
            None => {
                return None;
            },
            Some(st) => st,
        };
        proof {
            lemma_scan_start(s, self.spec_cursor());
        }
        let c = self.chars[st];
        if c == ',' || c == ';' {
            return Some((st, st + 1, st + 1));
        }
        // Find where the symbol ends.
        let mut j = st + 1;
        while j < n && !is_term_at(&self.chars, j)
            invariant
                self.spec_wf(),
                s == self.spec_src(),
                n == s.len(),
                st < j <= n,
                token_end(s, j as int) == token_end(s, st + 1int),
            decreases n - j,
        {
            j = j + 1;
        }
        assert(token_end(s, st + 1int) == j as int);
        // Trim trailing spaces and tabs off the symbol.
        let mut e = j;
        while e > st && (self.chars[e - 1] == ' ' || self.chars[e - 1] == '\t')
            invariant
                self.spec_wf(),
                s == self.spec_src(),
                n == s.len(),
                st <= e <= j <= n,
                back_trim(s, st as int, e as int) == back_trim(s, st as int, j as int),
            decreases e,
        {
            e = e - 1;
        }
        assert(back_trim(s, st as int, j as int) == e as int);
        Some((st, e, j))
    }

    /// Returns the next symbol without consuming it.
    pub fn peek_sym(&self) -> (r: Option<&'a str>)
        requires
            self.spec_wf(),
        ensures
            match sym_step(self.spec_src(), self.spec_cursor(), self.spec_prev_delim()) {
                None => r is None,
                Some(step) => r is Some && r->0@ == step.tok,
            },
    {
        proof {
            lemma_scan_token(self.spec_src(), self.spec_cursor());
        }
        match self.scan() {
            None => None,
            Some((st, e, _nx)) => {
                let c = self.chars[st];
                if (c == ',' || c == ';') && self.state.prev_delim {
                    Some(self.string.substring_char(st, st))
                } else {
                    Some(self.string.substring_char(st, e))
                }
            },
        }
    }

    /// Consumes and returns the next symbol.
    pub fn next_sym(&mut self) -> (r: Option<&'a str>)
        requires
            old(self).spec_wf(),
        ensures
            final(self).spec_wf(),
            final(self).spec_src() == old(self).spec_src(),
            match sym_step(old(self).spec_src(), old(self).spec_cursor(), old(
                self,
            ).spec_prev_delim()) {
                None => {
                    &&& r is None
                    &&& final(self).spec_cursor() == old(self).spec_cursor()
                    &&& final(self).spec_prev_delim() == old(self).spec_prev_delim()
                    &&& final(self).spec_mark() == old(self).spec_mark()
                },
                Some(step) => {
                    &&& r is Some
                    &&& r->0@ == step.tok
                    &&& final(self).spec_cursor() == step.next
                    &&& final(self).spec_prev_delim() == step.delim
                    &&& final(self).spec_mark() == (if step.collapse {
                        old(self).spec_mark()
                    } else {
                        step.off
                    })
                },
            },
    {
        proof {
            lemma_scan_token(self.spec_src(), self.spec_cursor());
        }
        match self.scan() {
            None => None,
            Some((st, e, nx)) => {
                let c = self.chars[st];
                if (c == ',' || c == ';') && self.state.prev_delim {
                    // A delimiter right after a delimiter: hand back the
                    // empty symbol and leave the cursor in place.
                    self.state.prev_delim = false;
                    Some(self.string.substring_char(st, st))
                } else {
                    self.state.pos = nx;
                    self.state.prev_delim = c == ',' || c == ';';
                    self.state.latest_offset = st;
                    Some(self.string.substring_char(st, e))
                }
            },
        }
    }

    /// Position of the last consumed symbol.
    pub fn position(&self) -> (p: Position)
        requires
            self.spec_wf(),
        ensures
            p.line == line_of(self.spec_src(), self.spec_mark()),
            p.column == col_of(self.spec_src(), self.spec_mark()),
    {
        let ghost s = self.spec_src();
        let off = self.state.latest_offset;
        let mut line: usize = 1;
        let mut col: usize = 1;
        let mut i: usize = 0;
        while i < off && i < self.chars.len()
            invariant
                self.spec_wf(),
                s == self.spec_src(),
                off == self.spec_mark(),
                off <= s.len(),
                i <= s.len(),
                1 <= line,
                1 <= col,
                pos_from(s, 0, off as int, 1, 1) == pos_from(
                    s,
                    i as int,
                    off as int,
                    line as int,
                    col as int,
                ),
                line <= i + 1,
                col <= 4 * i + 1,
                i <= MAX_SRC_LEN,
                i <= off + 1,
            decreases off + 2 - i,
        {
            let c = self.chars[i];
            if c == '\r' {
                if i + 1 < self.chars.len() && self.chars[i + 1] == '\n' {
                    i = i + 2;
                } else {
                    i = i + 1;
                }
                line = line + 1;
                col = 1;
            } else if c == '\n' {
                i = i + 1;
                line = line + 1;
                col = 1;
            } else if c == '\t' {
                i = i + 1;
                col = col + 4;
            } else {
                i = i + 1;
                col = col + 1;
            }
        }
        Position { line, column: col }
    }
}

impl<'a> Read<'a> for StrRead<'a> {
    closed spec fn src(&self) -> Seq<char> {
        self.spec_src()
    }

    closed spec fn cursor(&self) -> int {
        self.spec_cursor()
    }

    closed spec fn prev_delim(&self) -> bool {
        self.spec_prev_delim()
    }

    closed spec fn mark(&self) -> int {
        self.spec_mark()
    }

    closed spec fn wf(&self) -> bool {
        self.spec_wf()
    }

    fn peek_sym(&self) -> (r: Option<&'a str>) {
        StrRead::peek_sym(self)
    }

    fn next_sym(&mut self) -> (r: Option<&'a str>) {
        StrRead::next_sym(self)
    }

    fn position(&self) -> (p: Position) {
        StrRead::position(self)
    }
}

/// Whitespace test on one character.
fn is_ws(c: char) -> (b: bool)
    ensures
        b == is_ws_char(c),
{
    c == ' ' || c == '\t' || c == '\r' || c == '\n'
}

/// Whether a symbol that began earlier must end at index `j`.
fn is_term_at(chars: &Vec<char>, j: usize) -> (b: bool)
    requires
        j < chars@.len(),
    ensures
        b == (is_break_char(chars@[j as int]) || is_delim_char(chars@[j as int])
            || is_comment_start(chars@, j as int)),
{
    let n = chars.len();
    let c = chars[j];
    if c == '\r' || c == '\n' || c == ',' || c == ';' {
        true
    } else if c == '/' {
        j + 1 < n && chars[j + 1] == '*'
    } else {
        false
    }
}

} // verus!
