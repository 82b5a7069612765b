//! Incremental reconstruction of a view's buffer from diff operations.
//!
//! A cache is a run of unknown lines, then the known lines, then another run
//! of unknown lines. Each `update` replaces the whole cache: a fresh cache is
//! built by applying the update's operations in order, draining the previous
//! cache where `Copy` and `Skip` ask for it.

use vstd::prelude::*;
use vstd::slice::slice_index_get;

use crate::protocol;
use crate::protocol::OpKind;
use crate::screen::Coordinate;

verus! {

/// The mathematical value of one cached line.
#[verifier::ext_equal]
pub ghost struct LineModel {
    pub text: Seq<char>,
    pub cursors: Option<Seq<u64>>,
    pub styles: Seq<i64>,
}

/// The mathematical value of a cache: the two unknown-run counts and the
/// known lines between them.
#[verifier::ext_equal]
pub ghost struct CacheModel {
    pub before: nat,
    pub known: Seq<LineModel>,
    pub after: nat,
}

/// The empty cache value.
pub open spec fn empty_model() -> CacheModel {
    CacheModel { before: 0, known: Seq::empty(), after: 0 }
}

/// Total number of lines a cache stands for, unknown runs included.
pub open spec fn cache_len(m: CacheModel) -> nat {
    m.before + m.known.len() + m.after
}

/// One line of document text as known to the client.
#[derive(Debug)]
pub struct Line {
    pub text: String,
    pub cursors: Option<Vec<u64>>,
    pub styles: Vec<i64>,
}

impl View for Line {
    type V = LineModel;

    open spec fn view(&self) -> LineModel {
        LineModel {
            text: self.text@,
            cursors: match self.cursors {
                Some(v) => Some(v@),
                None => None,
            },
            styles: self.styles@,
        }
    }
}

impl Default for Line {
    fn default() -> (l: Line)
        ensures
            l@ == (LineModel { text: Seq::<char>::empty(), cursors: None, styles: Seq::<i64>::empty() }),
    {
        let l = Line { text: String::new(), cursors: None, styles: Vec::new() };
        proof {
            assert(l@ =~~= (LineModel {
                text: Seq::<char>::empty(),
                cursors: None,
                styles: Seq::<i64>::empty(),
            }));
        }
        l
    }
}

/// A style span decoded to absolute coordinates: `length` columns starting at
/// column `start`, styled with style `id`.
#[derive(Clone, Copy, Debug, PartialEq, Eq, Structural)]
pub struct StyleSpan {
    pub id: u64,
    pub start: usize,
    pub length: usize,
}

/// The value a wire line stands for once decoded into the cache: absent
/// cursor and style lists decode to empty ones.
pub open spec fn line_of_wire(l: protocol::Line) -> LineModel {
    LineModel {
        text: match l.text {
            Some(t) => t@,
            None => Seq::empty(),
        },
        cursors: match l.cursor {
            Some(v) => Some(v@),
            None => None,
        },
        styles: match l.styles {
            Some(v) => v@,
            None => Seq::empty(),
        },
    }
}

/// The cache line values of a sequence of owned cache lines.
pub open spec fn line_views(ls: Seq<Line>) -> Seq<LineModel> {
    ls.map_values(|l: Line| l@)
}

/// The cache line values of a sequence of wire lines.
pub open spec fn wire_views(ls: Seq<protocol::Line>) -> Seq<LineModel> {
    ls.map_values(|l: protocol::Line| line_of_wire(l))
}

/// A wire line list fit for `Ins`: present, with text on every line.
pub open spec fn wire_lines_ok(op: protocol::Op) -> bool {
    match op.lines {
        Some(ls) => forall|i: int| 0 <= i < ls@.len() ==> ls@[i].text is Some,
        None => false,
    }
}

/// The lines an `Ins` operation carries, as cache line values.
pub open spec fn wire_lines_model(op: protocol::Op) -> Seq<LineModel> {
    match op.lines {
        Some(ls) => wire_views(ls@),
        None => Seq::empty(),
    }
}

/// `Ins`: append fully specified lines to the known segment.
pub open spec fn ins_model(m: CacheModel, lines: Seq<LineModel>) -> CacheModel {
    CacheModel { known: m.known + lines, ..m }
}

/// `Invalidate`: extend the leading unknown run while no known lines exist,
/// the trailing one afterwards.
pub open spec fn invalidate_model(m: CacheModel, n: nat) -> CacheModel {
    if m.known.len() == 0 {
        CacheModel { before: m.before + n, ..m }
    } else {
        CacheModel { after: m.after + n, ..m }
    }
}

/// `Copy`: move up to `n` lines from the old cache into the new one,
/// consuming the old leading unknown run first, then known lines from the
/// front. Returns the new cache followed by what remains of the old one.
pub open spec fn copy_model(new: CacheModel, old: CacheModel, n: nat) -> (CacheModel, CacheModel) {
    let ninv: nat = if n <= old.before { n } else { old.before };
    let new1 = if ninv > 0 { invalidate_model(new, ninv) } else { new };
    let rem: nat = (n - ninv) as nat;
    let k: nat = if rem <= old.known.len() { rem } else { old.known.len() };
    (
        CacheModel { known: new1.known + old.known.take(k as int), ..new1 },
        CacheModel { before: (old.before - ninv) as nat, known: old.known.skip(k as int), after: old.after },
    )
}

/// `Skip`: discard up to `n` lines from the front of a cache, unknown run
/// first, then known lines. The trailing unknown run is never consumed.
pub open spec fn skip_model(old: CacheModel, n: nat) -> CacheModel {
    let ninv: nat = if n <= old.before { n } else { old.before };
    let rem: nat = (n - ninv) as nat;
    let k: nat = if rem <= old.known.len() { rem } else { old.known.len() };
    CacheModel { before: (old.before - ninv) as nat, known: old.known.skip(k as int), after: old.after }
}

/// The effect of one operation on the pair (cache being built, old cache
/// being drained). An `Update` kind is not part of this protocol's diffs and
/// leaves both caches unchanged.
pub open spec fn step_model(s: (CacheModel, CacheModel), op: protocol::Op) -> (CacheModel, CacheModel) {
    match op.op {
        OpKind::Ins => (ins_model(s.0, wire_lines_model(op)), s.1),
        OpKind::Invalidate => (invalidate_model(s.0, op.n as nat), s.1),
        OpKind::Copy => copy_model(s.0, s.1, op.n as nat),
        OpKind::Skip => (s.0, skip_model(s.1, op.n as nat)),
        OpKind::Update => s,
    }
}

/// The effect of an operation sequence, applied in order.
pub open spec fn apply_ops(s: (CacheModel, CacheModel), ops: Seq<protocol::Op>) -> (CacheModel, CacheModel)
    decreases ops.len(),
{
    if ops.len() == 0 {
        s
    } else {
        apply_ops(step_model(s, ops[0]), ops.skip(1))
    }
}

/// How many lines one operation can add to the cache being built.
pub open spec fn op_growth(op: protocol::Op) -> nat {
    match op.op {
        OpKind::Ins => match op.lines {
            Some(ls) => ls@.len(),
            None => 0,
        },
        OpKind::Invalidate => op.n as nat,
        OpKind::Copy => op.n as nat,
        OpKind::Skip => 0,
        OpKind::Update => 0,
    }
}

/// Upper bound on the length of the cache an operation sequence builds.
pub open spec fn growth_sum(ops: Seq<protocol::Op>) -> nat
    decreases ops.len(),
{
    if ops.len() == 0 {
        0
    } else {
        op_growth(ops[0]) + growth_sum(ops.skip(1))
    }
}

/// The sum of `n` over all operations that are not `Skip`.
pub open spec fn non_skip_sum(ops: Seq<protocol::Op>) -> nat
    decreases ops.len(),
{
    if ops.len() == 0 {
        0
    } else {
        (if ops[0].op is Skip { 0 } else { ops[0].n as nat }) + non_skip_sum(ops.skip(1))
    }
}

/// An operation the engine may send against the state `s`: `Ins` carries as
/// many lines as its count says, `Copy` never asks for more than the old
/// cache still holds in its leading unknown run and known lines, and the
/// unused `Update` kind does not occur.
pub open spec fn op_feasible(s: (CacheModel, CacheModel), op: protocol::Op) -> bool {
    match op.op {
        OpKind::Ins => wire_lines_ok(op) && wire_lines_model(op).len() == op.n as nat,
        OpKind::Invalidate => true,
        OpKind::Copy => op.n as nat <= s.1.before + s.1.known.len(),
        OpKind::Skip => true,
        OpKind::Update => false,
    }
}

/// Every operation of the sequence is feasible against the state it meets.
pub open spec fn ops_feasible(s: (CacheModel, CacheModel), ops: Seq<protocol::Op>) -> bool
    decreases ops.len(),
{
    ops.len() == 0 || (op_feasible(s, ops[0]) && ops_feasible(step_model(s, ops[0]), ops.skip(1)))
}

/// Mapping to line values commutes with appending a line.
proof fn lemma_line_views_push(s: Seq<Line>, l: Line)
    ensures
        line_views(s.push(l)) == line_views(s).push(l@),
{
    assert(line_views(s.push(l)) =~~= line_views(s).push(l@));
}

/// Mapping to line values commutes with concatenation.
proof fn lemma_line_views_concat(a: Seq<Line>, b: Seq<Line>)
    ensures
        line_views(a + b) == line_views(a) + line_views(b),
{
    assert(line_views(a + b) =~~= line_views(a) + line_views(b));
}

/// Mapping to line values commutes with taking a subrange.
proof fn lemma_line_views_subrange(s: Seq<Line>, i: int, j: int)
    requires
        0 <= i <= j <= s.len(),
    ensures
        line_views(s.subrange(i, j)) == line_views(s).subrange(i, j),
{
    assert(line_views(s.subrange(i, j)) =~~= line_views(s).subrange(i, j));
}

/// Per-view incremental buffer state: `invalid_before` unknown lines, then
/// the known `lines`, then `invalid_after` unknown lines.
#[derive(Debug)]
pub struct LineCache {
    pub invalid_before: u64,
    pub lines: Vec<Line>,
    pub invalid_after: u64,
}

impl View for LineCache {
    type V = CacheModel;

    open spec fn view(&self) -> CacheModel {
        CacheModel {
            before: self.invalid_before as nat,
            known: line_views(self.lines@),
            after: self.invalid_after as nat,
        }
    }
}

impl LineCache {
    /// The cache's total length fits the machine word `len` returns.
    pub open spec fn wf(&self) -> bool {
        cache_len(self@) <= usize::MAX
    }

    /// Creates an empty cache, the state of a freshly opened view.
    pub fn new() -> (c: Self)
        ensures
            c@ == empty_model(),
            c.wf(),
    {
        let c = LineCache { invalid_before: 0, lines: Vec::new(), invalid_after: 0 };
        proof {
            assert(c@ =~~= empty_model());
        }
        c
    }

    /// Creates a cache whose known lines carry the given texts and nothing
    /// else, with empty unknown runs.
    pub fn new_from_lines(texts: &[&str]) -> (c: Self)
        ensures
            c@.before == 0,
            c@.after == 0,
            c@.known.len() == texts@.len(),
            forall|i: int| 0 <= i < texts@.len()
                ==> c@.known[i] == (LineModel {
                    text: texts@[i]@,
                    cursors: None,
                    styles: Seq::<i64>::empty(),
                }),
            c.wf(),
    {
        let mut lines: Vec<Line> = Vec::new();
        let mut i: usize = 0;
        while i < texts.len()
            invariant
                i <= texts@.len(),
                lines@.len() == i,
                forall|j: int| 0 <= j < i as int
                    ==> #[trigger] line_views(lines@)[j] == (LineModel {
                        text: texts@[j]@,
                        cursors: None,
                        styles: Seq::<i64>::empty(),
                    }),
            decreases texts@.len() - i,
        {
            let ghost prev = lines@;
            let text: &str = *slice_index_get(texts, i);
            let line = Line { text: text.to_owned(), cursors: None, styles: Vec::new() };
            proof {
                assert(line@ =~~= (LineModel {
                    text: texts@[i as int]@,
                    cursors: None,
                    styles: Seq::<i64>::empty(),
                }));
            }
            lines.push(line);
            proof {
                lemma_line_views_push(prev, lines@[i as int]);
            }
            i = i + 1;
        }
        LineCache { invalid_before: 0, lines, invalid_after: 0 }
    }

    /// Returns the total number of lines in the cache, unknown runs included.
    pub fn len(&self) -> (n: usize)
        requires
            self.wf(),
        ensures
            n == cache_len(self@),
    {
        self.invalid_before as usize + self.lines.len() + self.invalid_after as usize
    }

    /// Appends fully specified lines to the known segment.
    fn ins(&mut self, lines: Vec<protocol::Line>)
        requires
            old(self).wf(),
            forall|i: int| 0 <= i < lines@.len() ==> (#[trigger] lines@[i]).text is Some,
            cache_len(old(self)@) + lines@.len() <= usize::MAX,
        ensures
            final(self)@ == ins_model(old(self)@, wire_views(lines@)),
            final(self).wf(),
    {
        let ghost lines0 = lines@;

        let mut converted: Vec<Line> = Vec::new();
        let mut rest = lines;
        while rest.len() > 0
            invariant
                rest@.len() <= lines0.len(),
                rest@ == lines0.skip(lines0.len() - rest@.len()),
                forall|i: int| 0 <= i < lines0.len() ==> (#[trigger] lines0[i]).text is Some,
                converted@.len() == lines0.len() - rest@.len(),
                line_views(converted@) == wire_views(lines0.take(lines0.len() - rest@.len())),
            decreases rest@.len(),
        {
            let ghost j = lines0.len() - rest@.len();
            let ghost prev = converted@;
            let l = rest.remove(0);
            proof {
                assert(l == lines0[j]);
                assert(rest@ =~~= lines0.skip(j + 1));
            }
            let text = match l.text {
                Some(t) => t,
                None => vstd::pervasive::unreached(),
            };
            let styles = match l.styles {
                Some(s) => s,
                None => Vec::new(),
            };
            let line = Line { text, cursors: l.cursor, styles };
            proof {
                assert(line@ =~~= line_of_wire(lines0[j]));
            }
            converted.push(line);
            proof {
                lemma_line_views_push(prev, converted@[j]);
                assert(line_views(converted@) =~~= wire_views(lines0.take(j + 1)));
            }
        }
        proof {
            assert(lines0.take(lines0.len() as int) =~~= lines0);
        }
        let ghost conv = converted@;
        let ghost self_lines0 = self.lines@;
        self.lines.append(&mut converted);
        proof {
            lemma_line_views_concat(self_lines0, conv);
            assert(self@ =~~= ins_model(old(self)@, wire_views(lines0)));
        }
    }

    /// Extends an unknown run by `n` lines: the leading one while no known
    /// lines exist, the trailing one otherwise.
    fn invalidate(&mut self, n: u64)
        requires
            old(self).wf(),
            cache_len(old(self)@) + n <= usize::MAX,
        ensures
            final(self)@ == invalidate_model(old(self)@, n as nat),
            final(self).wf(),
    {
        if self.lines.len() == 0 {
            self.invalid_before = self.invalid_before + n;
        } else {
            self.invalid_after = self.invalid_after + n;
        }
        proof {
            assert(self@ =~~= invalidate_model(old(self)@, n as nat));
        }
    }

    /// Moves up to `n` lines from the front of `old_cache` into this cache:
    /// its leading unknown run first, then its known lines.
    fn copy(&mut self, n: u64, old_cache: &mut Self)
        requires
            old(self).wf(),
            old(old_cache).wf(),
            cache_len(old(self)@) + n <= usize::MAX,
        ensures
            (final(self)@, final(old_cache)@) == copy_model(old(self)@, old(old_cache)@, n as nat),
            final(self).wf(),
            final(old_cache).wf(),
    {
        let mut n = n;
        let ghost n0 = n as nat;
        if n > 0 && old_cache.invalid_before > 0 {
            let num_invalid: u64;
            if old_cache.invalid_before > n {
                old_cache.invalid_before = old_cache.invalid_before - n;
                num_invalid = n;
            } else {
                num_invalid = old_cache.invalid_before;
                old_cache.invalid_before = 0;
            }
            self.invalidate(num_invalid);
            n = n - num_invalid;
        }

        let ghost mid_old_lines = old_cache.lines@;
        let ghost self_lines_mid = self.lines@;

        if n > 0 && old_cache.lines.len() > 0 {
            let k: usize = if old_cache.lines.len() as u64 > n {
                n as usize
            } else {
                old_cache.lines.len()
            };
            let mut tail = old_cache.lines.split_off(k);
            core::mem::swap(&mut old_cache.lines, &mut tail);
            self.lines.append(&mut tail);
            proof {
                lemma_line_views_subrange(mid_old_lines, 0, k as int);
                lemma_line_views_subrange(mid_old_lines, k as int, mid_old_lines.len() as int);
                lemma_line_views_concat(self_lines_mid, mid_old_lines.subrange(0, k as int));
            }
        }
        proof {
            let r = copy_model(old(self)@, old(old_cache)@, n0);
            assert(self@ =~~= r.0);
            assert(old_cache@ =~~= r.1);
        }
    }

    /// Discards up to `n` lines from the front of this cache: the leading
    /// unknown run first, then known lines.
    fn skip(&mut self, n: u64)
        requires
            old(self).wf(),
        ensures
            final(self)@ == skip_model(old(self)@, n as nat),
            final(self).wf(),
    {
        let mut n = n;
        let ghost n0 = n as nat;
        if n > 0 && self.invalid_before > 0 {
            let num_invalid: u64;
            if self.invalid_before > n {
                self.invalid_before = self.invalid_before - n;
                num_invalid = n;
            } else {
                num_invalid = self.invalid_before;
                self.invalid_before = 0;
            }
            n = n - num_invalid;
        }

        let ghost mid_lines = self.lines@;

        if n > 0 && self.lines.len() > 0 {
            let k: usize = if self.lines.len() as u64 > n {
                n as usize
            } else {
                self.lines.len()
            };
            let mut tail = self.lines.split_off(k);
            core::mem::swap(&mut self.lines, &mut tail);
            proof {
                lemma_line_views_subrange(mid_lines, k as int, mid_lines.len() as int);
            }
        }
        proof {
            assert(self@ =~~= skip_model(old(self)@, n0));
        }
    }

    /// Replaces the cache's state with the state the update describes: a new
    /// cache is built by applying the operations in order, draining this
    /// cache's previous state where `Copy` and `Skip` consume it.
    pub fn update(&mut self, update: protocol::Update)
        requires
            old(self).wf(),
            forall|i: int| 0 <= i < update.ops@.len() && (#[trigger] update.ops@[i]).op is Ins
                ==> wire_lines_ok(update.ops@[i]),
            growth_sum(update.ops@) <= usize::MAX,
        ensures
            final(self)@ == apply_ops((empty_model(), old(self)@), update.ops@).0,
            final(self).wf(),
    {
        let ghost ops0 = update.ops@;
        let ghost m0 = old(self)@;

        let mut old_cache = LineCache::new();
        core::mem::swap(self, &mut old_cache);

        let mut ops = update.ops;
        while ops.len() > 0
            invariant
                ops@.len() <= ops0.len(),
                ops@ == ops0.skip(ops0.len() - ops@.len()),
                forall|i: int| 0 <= i < ops0.len() && (#[trigger] ops0[i]).op is Ins
                    ==> wire_lines_ok(ops0[i]),
                growth_sum(ops0) <= usize::MAX,
                (self@, old_cache@) == apply_ops(
                    (empty_model(), m0),
                    ops0.take(ops0.len() - ops@.len()),
                ),
                cache_len(self@) <= growth_sum(ops0.take(ops0.len() - ops@.len())),
                self.wf(),
                old_cache.wf(),
            decreases ops@.len(),
        {
            let ghost j = ops0.len() - ops@.len();
            let op = ops.remove(0);
            proof {
                assert(op == ops0[j]);
                assert(ops@ =~~= ops0.skip(j + 1));
                lemma_growth_take_step(ops0, j);
                lemma_growth_take_bound(ops0, j + 1);
            }
            match op.op {
                OpKind::Ins => {
                    let lines = match op.lines {
                        Some(l) => l,
                        None => vstd::pervasive::unreached(),
                    };
                    proof {
                        assert(wire_lines_model(ops0[j]) =~~= wire_views(lines@));
                    }
                    self.ins(lines);
                }
                OpKind::Invalidate => self.invalidate(op.n),
                OpKind::Copy => self.copy(op.n, &mut old_cache),
                OpKind::Skip => old_cache.skip(op.n),
                OpKind::Update => {}
            }
            proof {
                lemma_apply_ops_take_step((empty_model(), m0), ops0, j);
                assert((self@, old_cache@) == apply_ops((empty_model(), m0), ops0.take(j + 1)));
                lemma_apply_len_bound((empty_model(), m0), ops0.take(j + 1));
            }
        }
        proof {
            assert(ops0.take(ops0.len() - ops@.len()) =~~= ops0);
        }
    }

    /// True if the known segment covers the rows `start..end` of the cache,
    /// so that the range can be read.
    pub open spec fn range_known(m: CacheModel, start: int, end: int) -> bool {
        m.before <= start && end <= m.before + m.known.len()
    }

    /// Returns the known lines of rows `start..end`, or `None` if any part of
    /// the range falls in an unknown run.
    pub fn iter_lines(&self, start: usize, end: usize) -> (r: Option<Vec<&Line>>)
        requires
            self.wf(),
            start <= end,
        ensures
            (r is Some) == Self::range_known(self@, start as int, end as int),
            r matches Some(v) ==> {
                &&& v@.len() == end - start
                &&& forall|i: int| 0 <= i < v@.len()
                    ==> (#[trigger] v@[i])@ == self@.known[start - self@.before + i]
            },
    {
        proof {
            assert(self@.known.len() == self.lines@.len());
        }
        let num = end - start;
        if start < self.invalid_before as usize
            || self.invalid_before as usize + self.lines.len() < end {
            return None;
        }

        let first = start - self.invalid_before as usize;
        let mut v: Vec<&Line> = Vec::new();
        let mut i: usize = 0;
        while i < num
            invariant
                i <= num,
                first + num <= usize::MAX,
                first + num <= self.lines@.len(),
                v@.len() == i,
                forall|q: int| 0 <= q < i as int
                    ==> (#[trigger] v@[q])@ == self@.known[first + q],
            decreases num - i,
        {
            proof {
                assert(first + i < self.lines@.len());
            }
            let line = &self.lines[first + i];
            v.push(line);
            i = i + 1;
        }
        Some(v)
    }

    /// True if the character at the coordinate's column, in the known line at
    /// the coordinate's row, is a line terminator.
    pub open spec fn eol_at(m: CacheModel, x: int, y: int) -> bool {
        &&& 0 <= y < m.known.len()
        &&& 0 <= x < m.known[y].text.len()
        &&& m.known[y].text[x] == '\n'
    }

    /// True if the given coordinate is at the end of a line in the cache.
    pub fn is_eol(&self, coordinate: &Coordinate) -> (r: bool)
        ensures
            r == Self::eol_at(self@, coordinate.x as int, coordinate.y as int),
    {
        if coordinate.y < self.lines.len() {
            let line = &self.lines[coordinate.y];
            let text = line.text.as_str();
            if coordinate.x < text.unicode_len() {
                text.get_char(coordinate.x) == '\n'
            } else {
                false
            }
        } else {
            false
        }
    }
}


/// The cursor offsets of a line value; a line without a cursor list has none.
pub open spec fn cursors_of(l: LineModel) -> Seq<u64> {
    match l.cursors {
        Some(c) => c,
        None => Seq::empty(),
    }
}

/// Well-formed style triples, decoding from a span that ended at `last_end`:
/// whole triples only, and each decoded span lies at a non-negative position,
/// has a non-negative length and id, and ends within machine bounds.
pub open spec fn styles_wf_from(styles: Seq<i64>, last_end: int) -> bool
    decreases styles.len(),
{
    if styles.len() == 0 {
        true
    } else if styles.len() < 3 {
        false
    } else {
        let start = last_end + styles[0];
        let length = styles[1];
        &&& start >= 0
        &&& length >= 0
        &&& styles[2] >= 0
        &&& start + length <= usize::MAX
        &&& start + length <= i64::MAX
        &&& styles_wf_from(styles.skip(3), start + length)
    }
}

/// Well-formed style triples for a whole line.
pub open spec fn styles_wf(styles: Seq<i64>) -> bool {
    styles_wf_from(styles, 0)
}

/// The spans a style triple list decodes to, when the previous span ended at
/// `last_end`: each triple's first entry is relative to that end.
pub open spec fn decode_spans_from(styles: Seq<i64>, last_end: int) -> Seq<StyleSpan>
    decreases styles.len(),
{
    if styles.len() < 3 {
        Seq::empty()
    } else {
        let start = last_end + styles[0];
        seq![StyleSpan { id: styles[2] as u64, start: start as usize, length: styles[1] as usize }]
            + decode_spans_from(styles.skip(3), start + styles[1])
    }
}

/// The absolute, decoded style spans of a line.
pub open spec fn decode_spans(styles: Seq<i64>) -> Seq<StyleSpan> {
    decode_spans_from(styles, 0)
}

/// Every span decoded from well-formed triples ends within machine bounds.
pub proof fn lemma_decoded_spans_bounded(styles: Seq<i64>, last_end: int)
    requires
        styles_wf_from(styles, last_end),
        0 <= last_end,
    ensures
        forall|i: int| 0 <= i < decode_spans_from(styles, last_end).len()
            ==> (#[trigger] decode_spans_from(styles, last_end)[i]).start
                + decode_spans_from(styles, last_end)[i].length <= usize::MAX,
    decreases styles.len(),
{
    if styles.len() >= 3 {
        let start = last_end + styles[0];
        let head = StyleSpan { id: styles[2] as u64, start: start as usize, length: styles[1] as usize };
        let rest = decode_spans_from(styles.skip(3), start + styles[1]);
        lemma_decoded_spans_bounded(styles.skip(3), start + styles[1]);
        assert(decode_spans_from(styles, last_end) == seq![head] + rest);
        assert forall|i: int| 0 <= i < decode_spans_from(styles, last_end).len()
            implies (#[trigger] decode_spans_from(styles, last_end)[i]).start
                + decode_spans_from(styles, last_end)[i].length <= usize::MAX by {
            if i == 0 {
                assert(decode_spans_from(styles, last_end)[0] == head);
            } else {
                assert(decode_spans_from(styles, last_end)[i] == rest[i - 1]);
            }
        }
    }
}

impl Line {
    /// Returns the offset of each cursor within the line.
    pub fn iter_cursors(&self) -> (r: Vec<u64>)
        ensures
            r@ == cursors_of(self@),
    {
        match &self.cursors {
            Some(v) => {
                let mut r: Vec<u64> = Vec::new();
                let mut i: usize = 0;
                while i < v.len()
                    invariant
                        i <= v@.len(),
                        r@ == v@.take(i as int),
                    decreases v@.len() - i,
                {
                    r.push(v[i]);
                    proof {
                        assert(r@ =~~= v@.take(i + 1));
                    }
                    i = i + 1;
                }
                proof {
                    assert(v@.take(v@.len() as int) =~~= v@);
                }
                r
            }
            None => Vec::new(),
        }
    }

    /// Whether the line's style triples are well formed, so that its spans
    /// can be decoded.
    pub fn styles_ok(&self) -> (b: bool)
        ensures
            b == styles_wf(self@.styles),
    {
        let ghost styles0 = self.styles@;
        let mut i: usize = 0;
        let mut last_end: usize = 0;
        proof {
            assert(styles0.skip(0) =~~= styles0);
        }
        loop
            invariant
                i <= styles0.len(),
                styles0 == self.styles@,
                0 <= last_end as int <= i64::MAX,
                styles_wf(styles0) == styles_wf_from(styles0.skip(i as int), last_end as int),
            decreases styles0.len() - i,
        {
            if i == self.styles.len() {
                return true;
            }
            if self.styles.len() - i < 3 {
                return false;
            }
            let delta = self.styles[i];
            let length = self.styles[i + 1];
            let id = self.styles[i + 2];
            let start: i128 = last_end as i128 + delta as i128;
            let fin: i128 = start + length as i128;
            if !(start >= 0 && length >= 0 && id >= 0 && fin <= usize::MAX as i128
                && fin <= i64::MAX as i128) {
                return false;
            }
            proof {
                assert(styles0.skip(i as int).skip(3) =~~= styles0.skip(i + 3));
                assert(styles0.skip(i as int)[0] == styles0[i as int]);
                assert(styles0.skip(i as int)[1] == styles0[i + 1]);
                assert(styles0.skip(i as int)[2] == styles0[i + 2]);
            }
            last_end = fin as usize;
            i = i + 3;
        }
    }

    /// Decodes the line's style triples into absolute spans: each triple's
    /// start is relative to the end of the previous span.
    pub fn iter_style_spans(&self) -> (r: Vec<StyleSpan>)
        requires
            styles_wf(self@.styles),
        ensures
            r@ == decode_spans(self@.styles),
    {
        let ghost styles0 = self.styles@;
        let mut r: Vec<StyleSpan> = Vec::new();
        let mut i: usize = 0;
        let mut last_end: usize = 0;
        proof {
            assert(styles0.skip(0) =~~= styles0);
            assert(decode_spans(styles0) =~~= r@ + decode_spans_from(styles0.skip(0), 0));
        }
        while i < self.styles.len()
            invariant
                i <= styles0.len(),
                styles0 == self.styles@,
                0 <= last_end as int <= i64::MAX,
                styles_wf_from(styles0.skip(i as int), last_end as int),
                decode_spans(styles0) == r@ + decode_spans_from(styles0.skip(i as int), last_end as int),
            decreases styles0.len() - i,
        {
            proof {
                assert(styles0.skip(i as int)[0] == styles0[i as int]);
                assert(styles0.skip(i as int)[1] == styles0[i + 1]);
                assert(styles0.skip(i as int)[2] == styles0[i + 2]);
                assert(styles0.skip(i as int).skip(3) =~~= styles0.skip(i + 3));
            }
            let delta = self.styles[i];
            let length = self.styles[i + 1];
            let id = self.styles[i + 2];
            let start: i64 = last_end as i64 + delta;
            let ghost r_prev = r@;
            r.push(StyleSpan { id: id as u64, start: start as usize, length: length as usize });
            proof {
                assert(r@ =~~= r_prev + seq![StyleSpan {
                    id: styles0[i as int + 2] as u64,
                    start: (last_end + styles0[i as int]) as usize,
                    length: styles0[i + 1] as usize,
                }]);
                assert(decode_spans(styles0) =~~= r@ + decode_spans_from(
                    styles0.skip(i + 3),
                    last_end + styles0[i as int] + styles0[i + 1],
                ));
            }
            last_end = (start + length) as usize;
            i = i + 3;
        }
        proof {
            assert(decode_spans_from(styles0.skip(i as int), last_end as int)
                =~~= Seq::<StyleSpan>::empty());
            assert(r@ =~~= decode_spans(styles0));
        }
        r
    }
}

/// The announced length of a concatenation is the sum of the parts'.
pub proof fn lemma_non_skip_concat(a: Seq<protocol::Op>, b: Seq<protocol::Op>)
    ensures
        non_skip_sum(a + b) == non_skip_sum(a) + non_skip_sum(b),
    decreases a.len(),
{
    if a.len() == 0 {
        assert(a + b =~~= b);
    } else {
        assert((a + b)[0] == a[0]);
        assert((a + b).skip(1) =~~= a.skip(1) + b);
        lemma_non_skip_concat(a.skip(1), b);
    }
}

/// Taking one more operation adds exactly its announced count.
pub proof fn lemma_non_skip_take_step(ops: Seq<protocol::Op>, j: int)
    requires
        0 <= j < ops.len(),
    ensures
        non_skip_sum(ops.take(j + 1)) == non_skip_sum(ops.take(j))
            + if ops[j].op is Skip { 0 } else { ops[j].n as nat },
{
    let single = seq![ops[j]];
    assert(ops.take(j + 1) =~~= ops.take(j) + single);
    lemma_non_skip_concat(ops.take(j), single);
    assert(single.skip(1) =~~= Seq::<protocol::Op>::empty());
    assert(non_skip_sum(single) == (if single[0].op is Skip { 0nat } else { single[0].n as nat })
        + non_skip_sum(single.skip(1)));
}

/// A prefix never announces more than the whole sequence.
pub proof fn lemma_non_skip_take_bound(ops: Seq<protocol::Op>, j: int)
    requires
        0 <= j <= ops.len(),
    ensures
        non_skip_sum(ops.take(j)) <= non_skip_sum(ops),
{
    assert(ops =~~= ops.take(j) + ops.skip(j));
    lemma_non_skip_concat(ops.take(j), ops.skip(j));
}

/// The length an operation sequence announces: the sum of `n` over all
/// operations that are not `Skip`. A well-behaved engine sends updates whose
/// announced length equals the cache length after the update; a caller that
/// wants the protocol invariant surfaced compares the two. `None` means the
/// announced length does not even fit the machine.
pub fn announced_len(ops: &Vec<protocol::Op>) -> (r: Option<usize>)
    ensures
        r matches Some(n) ==> n == non_skip_sum(ops@),
        (r is Some) == (non_skip_sum(ops@) <= usize::MAX),
{
    let mut acc: usize = 0;
    let mut i: usize = 0;
    proof {
        assert(ops@.take(0) =~~= Seq::<protocol::Op>::empty());
    }
    while i < ops.len()
        invariant
            i <= ops@.len(),
            acc == non_skip_sum(ops@.take(i as int)),
        decreases ops@.len() - i,
    {
        let op = &ops[i];
        proof {
            lemma_non_skip_take_step(ops@, i as int);
        }
        if !matches!(op.op, OpKind::Skip) {
            if op.n > usize::MAX as u64 {
                proof {
                    lemma_non_skip_take_bound(ops@, i + 1);
                }
                return None;
            }
            acc = match acc.checked_add(op.n as usize) {
                Some(sum) => sum,
                None => {
                    proof {
                        lemma_non_skip_take_bound(ops@, i + 1);
                    }
                    return None;
                }
            };
        }
        i = i + 1;
    }
    proof {
        assert(ops@.take(ops@.len() as int) =~~= ops@);
    }
    Some(acc)
}

/// Applying a concatenation applies the two parts in order.
pub proof fn lemma_apply_ops_concat(s: (CacheModel, CacheModel), a: Seq<protocol::Op>, b: Seq<protocol::Op>)
    ensures
        apply_ops(s, a + b) == apply_ops(apply_ops(s, a), b),
    decreases a.len(),
{
    if a.len() == 0 {
        assert(a + b =~~= b);
    } else {
        assert((a + b)[0] == a[0]);
        assert((a + b).skip(1) =~~= a.skip(1) + b);
        lemma_apply_ops_concat(step_model(s, a[0]), a.skip(1), b);
    }
}

/// Applying one more operation steps the state once.
pub proof fn lemma_apply_ops_take_step(s: (CacheModel, CacheModel), ops: Seq<protocol::Op>, j: int)
    requires
        0 <= j < ops.len(),
    ensures
        apply_ops(s, ops.take(j + 1)) == step_model(apply_ops(s, ops.take(j)), ops[j]),
{
    let single = seq![ops[j]];
    assert(ops.take(j + 1) =~~= ops.take(j) + single);
    lemma_apply_ops_concat(s, ops.take(j), single);
    let s2 = apply_ops(s, ops.take(j));
    assert(single.skip(1) =~~= Seq::<protocol::Op>::empty());
    assert(apply_ops(s2, single) == apply_ops(step_model(s2, single[0]), single.skip(1)));
    assert(apply_ops(step_model(s2, single[0]), single.skip(1)) == step_model(s2, ops[j]));
}

/// The growth bound of a concatenation is the sum of the parts' bounds.
pub proof fn lemma_growth_concat(a: Seq<protocol::Op>, b: Seq<protocol::Op>)
    ensures
        growth_sum(a + b) == growth_sum(a) + growth_sum(b),
    decreases a.len(),
{
    if a.len() == 0 {
        assert(a + b =~~= b);
    } else {
        assert((a + b)[0] == a[0]);
        assert((a + b).skip(1) =~~= a.skip(1) + b);
        lemma_growth_concat(a.skip(1), b);
    }
}

/// Taking one more operation adds exactly its growth.
pub proof fn lemma_growth_take_step(ops: Seq<protocol::Op>, j: int)
    requires
        0 <= j < ops.len(),
    ensures
        growth_sum(ops.take(j + 1)) == growth_sum(ops.take(j)) + op_growth(ops[j]),
{
    let single = seq![ops[j]];
    assert(ops.take(j + 1) =~~= ops.take(j) + single);
    lemma_growth_concat(ops.take(j), single);
    assert(single.skip(1) =~~= Seq::<protocol::Op>::empty());
    assert(growth_sum(single) == op_growth(single[0]) + growth_sum(single.skip(1)));
}

/// A prefix never has a larger growth bound than the whole sequence.
pub proof fn lemma_growth_take_bound(ops: Seq<protocol::Op>, j: int)
    requires
        0 <= j <= ops.len(),
    ensures
        growth_sum(ops.take(j)) <= growth_sum(ops),
{
    assert(ops =~~= ops.take(j) + ops.skip(j));
    lemma_growth_concat(ops.take(j), ops.skip(j));
}

/// The cache an operation sequence builds never exceeds the growth bound.
pub proof fn lemma_apply_len_bound(s: (CacheModel, CacheModel), ops: Seq<protocol::Op>)
    ensures
        cache_len(apply_ops(s, ops).0) <= cache_len(s.0) + growth_sum(ops),
    decreases ops.len(),
{
    if ops.len() > 0 {
        let s1 = step_model(s, ops[0]);
        assert(cache_len(s1.0) <= cache_len(s.0) + op_growth(ops[0]));
        lemma_apply_len_bound(s1, ops.skip(1));
    }
}

/// The length law of updates: for every feasible operation sequence, the
/// cache that an update builds is exactly as long as the operations announce,
/// the sum of `n` over all operations that are not `Skip`.
pub proof fn lemma_update_length(s: (CacheModel, CacheModel), ops: Seq<protocol::Op>)
    requires
        ops_feasible(s, ops),
    ensures
        cache_len(apply_ops(s, ops).0) == cache_len(s.0) + non_skip_sum(ops),
    decreases ops.len(),
{
    if ops.len() > 0 {
        let op = ops[0];
        let s1 = step_model(s, op);
        match op.op {
            OpKind::Ins => {
                assert(cache_len(s1.0) == cache_len(s.0) + op.n);
            }
            OpKind::Invalidate => {
                assert(cache_len(s1.0) == cache_len(s.0) + op.n);
            }
            OpKind::Copy => {
                assert(cache_len(s1.0) == cache_len(s.0) + op.n);
            }
            OpKind::Skip => {}
            OpKind::Update => {}
        }
        lemma_update_length(s1, ops.skip(1));
    }
}


} // verus!
