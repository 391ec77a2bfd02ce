//! Collected CSV output lines, with a one-shot header.

use crate::text::dec_digits;
use crate::text::compose_row;
use crate::text::lemma_dec_last_is_digit;
use crate::text::row_text;
use vstd::prelude::*;

verus! {

/// The one CSV header line.
pub open spec fn header_text() -> Seq<char> {
    "Name,Time (ns)"@
}

/// How many of `lines` are the header line.
pub open spec fn count_headers(lines: Seq<Seq<char>>) -> int
    decreases lines.len(),
{
    if lines.len() == 0 {
        0
    } else {
        count_headers(lines.drop_last()) + if lines.last() == header_text() {
            1int
        } else {
            0int
        }
    }
}

/// What emitting one row appends to the collected lines: the row alone, or
/// the header first if no row has been emitted yet.
pub open spec fn emitted_lines(header_done: bool, name: Seq<char>, avg: u64) -> Seq<Seq<char>> {
    if header_done {
        seq![row_text(name, avg)]
    } else {
        seq![header_text(), row_text(name, avg)]
    }
}

/// The CSV lines a run produces, in order. The header is emitted lazily,
/// before the first data row and only then; the report may be shared across
/// several runs, so the header still appears at most once in a process that
/// routes every run through one report.
pub struct Report {
    header_emitted: bool,
    lines: Vec<String>,
}

impl Report {
    /// Whether the header has been emitted.
    pub closed spec fn header_done(self) -> bool {
        self.header_emitted
    }

    /// The collected lines.
    pub closed spec fn lines_view(self) -> Seq<Seq<char>> {
        self.lines.deep_view()
    }

    /// The header stands among the collected lines exactly once if any row
    /// has been emitted, and not at all otherwise.
    pub open spec fn wf(self) -> bool {
        count_headers(self.lines_view()) == if self.header_done() {
            1int
        } else {
            0int
        }
    }

    /// An empty report: nothing emitted yet.
    pub fn new() -> (r: Report)
        ensures
            !r.header_done(),
            r.lines_view() == Seq::<Seq<char>>::empty(),
            r.wf(),
    {
        let r = Report { header_emitted: false, lines: Vec::new() };
        proof {
            assert(r.lines_view() =~= Seq::<Seq<char>>::empty());
        }
        r
    }

    /// Emits one data row `name,avg` — preceded by the header if no row has
    /// been emitted yet.
    pub fn emit_row(&mut self, name: String, avg: u64)
        requires
            old(self).wf(),
        ensures
            final(self).wf(),
            final(self).header_done(),
            final(self).lines_view() == old(self).lines_view() + emitted_lines(
                old(self).header_done(),
                name@,
                avg,
            ),
    {
        let ghost n0 = name@;
        let row = compose_row(name, avg);
        let ghost rowv = row@;
        proof {
            lemma_dec_last_is_digit(avg);
            reveal_strlit("Name,Time (ns)");
            assert(rowv.last() == dec_digits(avg).last());
            assert(header_text().last() == ')');
            assert(rowv != header_text());
        }
        if !self.header_emitted {
            let header = "Name,Time (ns)".to_owned();
            let ghost hv = header@;
            let ghost pre = self.lines;
            self.lines.push(header);
            self.header_emitted = true;
            proof {
                assert(hv == header_text());
                lemma_deep_view_push(pre, self.lines, hv);
                lemma_count_headers_push(pre.deep_view(), hv);
            }
        }
        let ghost mid = self.lines;
        self.lines.push(row);
        proof {
            lemma_deep_view_push(mid, self.lines, rowv);
            lemma_count_headers_push(mid.deep_view(), rowv);
            assert(self.lines_view() =~= old(self).lines_view() + emitted_lines(
                old(self).header_done(),
                n0,
                avg,
            ));
        }
    }

    /// The collected lines, for an interface to print or write out.
    pub fn lines(&self) -> (r: &Vec<String>)
        ensures
            r.deep_view() == self.lines_view(),
    {
        &self.lines
    }
}

/// Pushing one string onto a vector appends its characters to the deep view.
proof fn lemma_deep_view_push(v1: Vec<String>, v2: Vec<String>, s: Seq<char>)
    requires
        v2@.len() == v1@.len() + 1,
        forall|i: int| 0 <= i < v1@.len() ==> v2@[i] == v1@[i],
        v2@[v1@.len() as int]@ == s,
    ensures
        v2.deep_view() =~= v1.deep_view().push(s),
{
    assert forall|i: int| 0 <= i < v2@.len() implies v2.deep_view()[i] == v1.deep_view().push(
        s,
    )[i] by {
        if i < v1@.len() {
            assert(v2@[i] == v1@[i]);
        }
    }
}

/// Appending one line changes the header count by one exactly when the line
/// is the header.
proof fn lemma_count_headers_push(lines: Seq<Seq<char>>, x: Seq<char>)
    ensures
        count_headers(lines.push(x)) == count_headers(lines) + if x == header_text() {
            1int
        } else {
            0int
        },
{
    assert(lines.push(x).drop_last() =~= lines);
    assert(lines.push(x).last() == x);
}

/// The CSV header line stands in a well-formed report exactly once as soon as
/// any data row has been emitted, and not at all before — also where several
/// benchmark sets are run in one process against the same report.
pub proof fn lemma_header_once(r: Report)
    requires
        r.wf(),
    ensures
        count_headers(r.lines_view()) == if r.header_done() {
            1int
        } else {
            0int
        },
{
}

} // verus!
