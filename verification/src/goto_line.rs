//! Script-editor go-to-line: moves the caret to a requested 1-based line,
//! clamping out-of-range input to `[1, line_count]`, and scrolls so that the
//! line is centered as far as the document bounds allow.

use vstd::prelude::*;

verus! {

/// The largest first-visible line: the scroll position that shows the last
/// line at the bottom of the viewport.
pub open spec fn max_top(line_count: int, viewport: int) -> int {
    if line_count >= viewport { line_count - viewport + 1 } else { 1 }
}

/// The first visible line that centers `caret`, clamped to the document.
pub open spec fn centered_top(caret: int, line_count: int, viewport: int) -> int {
    let half = viewport / 2;
    let desired = if caret - half >= 1 { caret - half } else { 1 };
    if desired > max_top(line_count, viewport) { max_top(line_count, viewport) } else { desired }
}

/// Tracks the caret line and viewport scroll for go-to-line navigation.
#[derive(Debug, Clone)]
pub struct GotoLine {
    line_count: usize,
    viewport_lines: usize,
    caret_line: usize,
    top_line: usize,
}

impl GotoLine {
    /// The number of lines (at least 1).
    pub closed spec fn lines(&self) -> int {
        self.line_count as int
    }

    /// The viewport height in lines (at least 1).
    pub closed spec fn viewport(&self) -> int {
        self.viewport_lines as int
    }

    /// The caret line (1-based).
    pub closed spec fn caret(&self) -> int {
        self.caret_line as int
    }

    /// The first visible line (1-based).
    pub closed spec fn top(&self) -> int {
        self.top_line as int
    }

    /// The last visible line.
    pub open spec fn bottom(&self) -> int {
        if self.top() + self.viewport() - 1 < self.lines() { self.top() + self.viewport() - 1 } else { self.lines() }
    }

    /// The caret is on a line of the document and the view is centered on
    /// it.
    pub open spec fn wf(&self) -> bool {
        &&& self.lines() >= 1
        &&& self.viewport() >= 1
        &&& 1 <= self.caret() <= self.lines()
        &&& self.top() == centered_top(self.caret(), self.lines(), self.viewport())
    }

    proof fn lemma_bounds(&self)
        requires
            self.wf(),
        ensures
            1 <= self.top() <= self.caret() <= self.bottom() <= self.lines(),
            self.top() + self.viewport() - 1 <= usize::MAX,
    {
        let lc = self.lines();
        let vl = self.viewport();
        assert(self.line_count <= usize::MAX && self.viewport_lines <= usize::MAX);
        assert(max_top(lc, vl) >= 1);
        if lc >= vl {
            assert(self.top() + vl - 1 <= lc);
        }
    }

    fn center(&mut self)
        requires
            old(self).lines() >= 1,
            old(self).viewport() >= 1,
            1 <= old(self).caret() <= old(self).lines(),
        ensures
            final(self).wf(),
            final(self).lines() == old(self).lines(),
            final(self).viewport() == old(self).viewport(),
            final(self).caret() == old(self).caret(),
    {
        let half = self.viewport_lines / 2;
        let sub = if self.caret_line > half { self.caret_line - half } else { 0 };
        let desired = if sub > 1 { sub } else { 1 };
        let max_top = if self.line_count > self.viewport_lines { self.line_count - self.viewport_lines } else { 0 } + 1;
        self.top_line = if desired > max_top { max_top } else { desired };
    }

    /// Creates a navigator for a document of `line_count` lines (at least
    /// one) shown through a viewport `viewport_lines` tall (at least one).
    /// The caret starts on line 1.
    pub fn new(line_count: usize, viewport_lines: usize) -> (g: Self)
        ensures
            g.wf(),
            g.lines() == if line_count >= 1 { line_count as int } else { 1 },
            g.viewport() == if viewport_lines >= 1 { viewport_lines as int } else { 1 },
            g.caret() == 1,
    {
        let line_count = if line_count > 1 { line_count } else { 1 };
        let viewport_lines = if viewport_lines > 1 { viewport_lines } else { 1 };
        let mut g = GotoLine { line_count, viewport_lines, caret_line: 1, top_line: 1 };
        g.center();
        g
    }

    /// The total number of lines.
    pub fn line_count(&self) -> (n: usize)
        ensures
            n == self.lines(),
    {
        self.line_count
    }

    /// The current caret line (1-based).
    pub fn caret_line(&self) -> (n: usize)
        ensures
            n == self.caret(),
    {
        self.caret_line
    }

    /// The first visible line (1-based scroll position).
    pub fn top_line(&self) -> (n: usize)
        ensures
            n == self.top(),
    {
        self.top_line
    }

    /// The last visible line (1-based).
    pub fn bottom_line(&self) -> (n: usize)
        requires
            self.wf(),
        ensures
            n == self.bottom(),
    {
        proof { self.lemma_bounds(); }
        let b = self.top_line + (self.viewport_lines - 1);
        if b < self.line_count { b } else { self.line_count }
    }

    /// Whether `line` is currently within the visible viewport.
    pub fn is_visible(&self, line: usize) -> (r: bool)
        requires
            self.wf(),
        ensures
            r == (self.top() <= line <= self.bottom()),
    {
        line >= self.top_line && line <= self.bottom_line()
    }

    /// Moves the caret to `requested` (1-based), clamping out-of-range values
    /// to `[1, line_count]`, and centers the line in view. Returns the
    /// resulting caret line.
    pub fn goto(&mut self, requested: i64) -> (line: usize)
        requires
            old(self).wf(),
            old(self).lines() <= i64::MAX,
        ensures
            final(self).wf(),
            line as int == if requested < 1 { 1 } else if requested > old(self).lines() { old(self).lines() } else { requested as int },
            final(self).caret() == line,
            final(self).lines() == old(self).lines(),
            final(self).viewport() == old(self).viewport(),
            final(self).top() <= line <= final(self).bottom(),
    {
        let max = self.line_count as i64;
        let clamped = if requested < 1 { 1 } else if requested > max { max } else { requested };
        let line = clamped as usize;
        self.caret_line = line;
        self.center();
        proof { self.lemma_bounds(); }
        line
    }
}

} // verus!
