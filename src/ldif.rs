//! Reading record files: physical lines into records, and records into the
//! structural index or the in-memory tree.
use vstd::prelude::*;
use crate::builder::{all_attributes, index_of, IndexBuilder, RecordView};
use crate::laws::{entries_for, law_index_linked, law_record_placement, well_linked};
use crate::error::XtvError;
use crate::index::{node_of_entry, LdifIndex};
use crate::streaming::node_from_entry;
use crate::text::{append_str, chars_of, has_prefix, starts_with, string_of_range, trim, trimmed};
use crate::values::attribute_of;
use crate::tree::Tree;
use crate::node::NodeView;

verus! {

/// One record: its byte offset, its key and its attribute lines in order.
pub struct LdifEntry {
    pub offset: u64,
    pub dn: String,
    pub attributes: Vec<(String, String)>,
}

impl View for LdifEntry {
    type V = RecordView;

    open spec fn view(&self) -> RecordView {
        RecordView { offset: self.offset, dn: self.dn@, attrs: crate::attrs::pairs_view(self.attributes@) }
    }
}

/// The state of a reader: lines read, byte offset of the next line, the
/// logical line being folded (with its first line number and offset), and
/// the record being read.
pub struct ReaderView {
    pub line_no: usize,
    pub offset: u64,
    pub pending: Option<(Seq<char>, usize, u64)>,
    pub record: Option<RecordView>,
}

/// `a + b`, or the largest `u64` when that overflows.
pub open spec fn sat_add(a: u64, b: u64) -> u64 {
    if a + b <= u64::MAX {
        (a + b) as u64
    } else {
        u64::MAX
    }
}

/// The next line number, held at the largest `usize`.
pub open spec fn next_line_no(n: usize) -> usize {
    if n < usize::MAX {
        (n + 1) as usize
    } else {
        n
    }
}

/// The reader once its pending logical line is complete: a key line
/// (`dn:`) starts a record, any other line is an attribute line of the
/// current record. Outside a record a line that is not a key line is an
/// error, reported with its line number.
pub open spec fn complete(v: ReaderView) -> Result<ReaderView, usize> {
    match v.pending {
        None => Ok(v),
        Some(p) => match v.record {
            None => if has_prefix(p.0, "dn:"@) {
                Ok(ReaderView {
                    pending: None,
                    record: Some(RecordView { offset: p.2, dn: trim(p.0.subrange(3, p.0.len() as int)), attrs: Seq::empty() }),
                    ..v
                })
            } else {
                Err(p.1)
            },
            Some(r) => Ok(ReaderView {
                pending: None,
                record: Some(RecordView {
                    attrs: match attribute_of(p.0) {
                        Some(kv) => r.attrs.push(kv),
                        None => r.attrs,
                    },
                    ..r
                }),
                ..v
            }),
        },
    }
}

/// The reader after one more physical line of `n` bytes, and what the line
/// yields. A first line starting `version:` is skipped; a line starting
/// with a space continues the pending line without that space; a line
/// starting `#` is a comment; a blank line ends the current record, which
/// it yields; any other line completes the pending line and becomes the
/// new pending line.
pub open spec fn step(v: ReaderView, line: Seq<char>, n: u64) -> (ReaderView, Result<Option<RecordView>, usize>) {
    let ln = next_line_no(v.line_no);
    let v1 = ReaderView { line_no: ln, offset: sat_add(v.offset, n), ..v };
    if ln == 1 && has_prefix(line, "version:"@) {
        (v1, Ok(None))
    } else if v.pending is Some && line.len() > 0 && line[0] == ' ' {
        let p = v.pending->0;
        (ReaderView { pending: Some((p.0 + line.drop_first(), p.1, p.2)), ..v1 }, Ok(None))
    } else if line.len() > 0 && line[0] == '#' {
        (v1, Ok(None))
    } else {
        match complete(v1) {
            Err(e) => (ReaderView { pending: None, ..v1 }, Err(e)),
            Ok(v2) => if trim(line).len() == 0 {
                (ReaderView { record: None, ..v2 }, Ok(v2.record))
            } else {
                (ReaderView { pending: Some((line, ln, v.offset)), ..v2 }, Ok(None))
            },
        }
    }
}

/// The reader at the end of the input, and the last record, which needs no
/// blank line after it.
pub open spec fn finish_step(v: ReaderView) -> (ReaderView, Result<Option<RecordView>, usize>) {
    match complete(v) {
        Err(e) => (ReaderView { pending: None, ..v }, Err(e)),
        Ok(v2) => (ReaderView { record: None, ..v2 }, Ok(v2.record)),
    }
}

/// Whether an exec result matches the outcome of a step.
pub open spec fn yields(r: Result<Option<LdifEntry>, XtvError>, out: Result<Option<RecordView>, usize>) -> bool {
    match r {
        Ok(Some(e)) => out == Ok::<Option<RecordView>, usize>(Some(e@)),
        Ok(None) => out == Ok::<Option<RecordView>, usize>(None),
        Err(XtvError::LdifParse { line, .. }) => out == Err::<Option<RecordView>, usize>(line),
        Err(_) => false,
    }
}

/// Groups physical lines into records: skips a leading version line and
/// comment lines, folds continuation lines (one leading space), and ends a
/// record at a blank line.
pub struct RecordReader {
    line_no: usize,
    offset: u64,
    pending: Vec<char>,
    has_pending: bool,
    pending_line: usize,
    pending_offset: u64,
    in_record: bool,
    dn: String,
    attributes: Vec<(String, String)>,
    record_offset: u64,
}

impl View for RecordReader {
    type V = ReaderView;

    closed spec fn view(&self) -> ReaderView {
        ReaderView {
            line_no: self.line_no,
            offset: self.offset,
            pending: if self.has_pending {
                Some((self.pending@, self.pending_line, self.pending_offset))
            } else {
                None
            },
            record: if self.in_record {
                Some(RecordView { offset: self.record_offset, dn: self.dn@, attrs: crate::attrs::pairs_view(self.attributes@) })
            } else {
                None
            },
        }
    }
}

fn add_saturating(a: u64, b: u64) -> (r: u64)
    ensures
        r == sat_add(a, b),
{
    if a <= u64::MAX - b {
        a + b
    } else {
        u64::MAX
    }
}

impl RecordReader {
    /// A reader at the start of a file.
    pub fn new() -> (r: RecordReader)
        ensures
            r@ == (ReaderView { line_no: 0, offset: 0, pending: None, record: None }),
    {
        RecordReader {
            line_no: 0,
            offset: 0,
            pending: Vec::new(),
            has_pending: false,
            pending_line: 0,
            pending_offset: 0,
            in_record: false,
            dn: String::new(),
            attributes: Vec::new(),
            record_offset: 0,
        }
    }

    /// Completes the pending logical line.
    fn flush(&mut self) -> (r: Result<(), XtvError>)
        ensures
            match complete(old(self)@) {
                Ok(v) => r is Ok && final(self)@ == v,
                Err(e) => r matches Err(XtvError::LdifParse { line, .. }) && line == e
                    && final(self)@ == (ReaderView { pending: None, ..old(self)@ }),
            },
    {
        if !self.has_pending {
            return Ok(());
        }
        self.has_pending = false;
        if !self.in_record {
            if !starts_with(&self.pending, "dn:") {
                let mut message = String::new();
                append_str(&mut message, "Expected DN, got: ");
                let got = string_of_range(&self.pending, 0, self.pending.len());
                append_str(&mut message, got.as_str());
                return Err(XtvError::LdifParse { line: self.pending_line, message });
            }
            proof {
                reveal_strlit("dn:");
            }
            self.dn = trimmed(&self.pending, 3, self.pending.len());
            self.attributes = Vec::new();
            self.record_offset = self.pending_offset;
            self.in_record = true;
            assert(crate::attrs::pairs_view(self.attributes@) =~= Seq::empty());
        } else {
            let line = string_of_range(&self.pending, 0, self.pending.len());
            assert(self.pending@.subrange(0, self.pending@.len() as int) =~= self.pending@);
            let ghost before = self.attributes@;
            match crate::values::parse_attribute_line(line.as_str()) {
                Some(kv) => {
                    self.attributes.push(kv);
                    assert(crate::attrs::pairs_view(self.attributes@) =~= crate::attrs::pairs_view(before).push((kv.0@, kv.1@)));
                },
                None => {},
            }
        }
        Ok(())
    }

    fn take_record(&mut self) -> (r: Option<LdifEntry>)
        ensures
            final(self)@ == (ReaderView { record: None, ..old(self)@ }),
            match r {
                Some(e) => old(self)@.record == Some(e@),
                None => old(self)@.record is None,
            },
    {
        if !self.in_record {
            return None;
        }
        self.in_record = false;
        let dn = self.dn.clone();
        self.dn = String::new();
        let mut attributes: Vec<(String, String)> = Vec::new();
        std::mem::swap(&mut attributes, &mut self.attributes);
        Some(LdifEntry { offset: self.record_offset, dn, attributes })
    }

    /// Reads the next physical line, `byte_len` bytes long with its line
    /// end; returns the record that a blank line completes.
    pub fn push_line(&mut self, line: &str, byte_len: u64) -> (r: Result<Option<LdifEntry>, XtvError>)
        ensures
            final(self)@ == step(old(self)@, line@, byte_len).0,
            yields(r, step(old(self)@, line@, byte_len).1),
    {
        if self.line_no < usize::MAX {
            self.line_no = self.line_no + 1;
        }
        let cs = chars_of(line);
        let start = self.offset;
        self.offset = add_saturating(self.offset, byte_len);
        if self.line_no == 1 && starts_with(&cs, "version:") {
            return Ok(None);
        }
        if self.has_pending && cs.len() > 0 && cs[0] == ' ' {
            let ghost base = self.pending@;
            let ghost v1 = self@;
            let ghost pl = self.pending_line;
            let ghost po = self.pending_offset;
            let mut i: usize = 1;
            while i < cs.len()
                invariant
                    1 <= i <= cs@.len(),
                    self.has_pending,
                    self@ == (ReaderView { pending: Some((base + cs@.subrange(1, i as int), pl, po)), ..v1 }),
                decreases cs@.len() - i,
            {
                self.pending.push(cs[i]);
                assert(base + cs@.subrange(1, i + 1) =~= (base + cs@.subrange(1, i as int)).push(cs@[i as int]));
                i = i + 1;
            }
            assert(cs@.subrange(1, cs@.len() as int) =~= cs@.drop_first());
            return Ok(None);
        }
        if cs.len() > 0 && cs[0] == '#' {
            return Ok(None);
        }
        match self.flush() {
            Ok(()) => {},
            Err(e) => return Err(e),
        }
        let (a, b) = crate::text::trim_bounds(&cs, 0, cs.len());
        assert(cs@.subrange(0, cs@.len() as int) =~= cs@);
        if a == b {
            return Ok(self.take_record());
        }
        self.pending = cs;
        self.has_pending = true;
        self.pending_line = self.line_no;
        self.pending_offset = start;
        Ok(None)
    }

    /// Ends the input: completes the pending line and returns the last
    /// record, which needs no blank line after it.
    pub fn finish(&mut self) -> (r: Result<Option<LdifEntry>, XtvError>)
        ensures
            final(self)@ == finish_step(old(self)@).0,
            yields(r, finish_step(old(self)@).1),
    {
        match self.flush() {
            Ok(()) => Ok(self.take_record()),
            Err(e) => Err(e),
        }
    }
}

/// The entries of the in-memory tree are the nodes that the index entries
/// rebuild to.
pub open spec fn tree_of_index(es: Seq<crate::index::EntryView>) -> Seq<NodeView> {
    es.map_values(|e: crate::index::EntryView| node_of_entry(e))
}

/// The in-memory tree holding the node of every index entry, ids kept.
pub fn tree_from_index(index: &LdifIndex) -> (r: Tree)
    requires
        index@.len() >= 1,
        index@[0].parent_id is None,
    ensures
        r.wf(),
        r@ == tree_of_index(index@),
{
    let n = index.len();
    let first = match index.get_entry(0) {
        Some(e) => node_from_entry(e),
        None => crate::node::TreeNode::new("root", "root"),
    };
    let mut tree = Tree::new(first);
    let mut i: usize = 1;
    while i < n
        invariant
            1 <= i <= n,
            n == index@.len(),
            tree.wf(),
            tree@ == tree_of_index(index@.subrange(0, i as int)),
        decreases n - i,
    {
        match index.get_entry(i) {
            Some(e) => {
                let node = node_from_entry(e);
                tree.add_node(node);
            },
            None => {},
        }
        assert(tree_of_index(index@.subrange(0, i + 1)) =~= tree_of_index(index@.subrange(0, i as int)).push(node_of_entry(index@[i as int])));
        i = i + 1;
    }
    assert(index@.subrange(0, n as int) =~= index@);
    tree
}

/// Hands one record to the builder, or reports that the index is full.
pub fn add_entry_to(builder: &mut IndexBuilder, entry: &LdifEntry) -> (r: Result<(), XtvError>)
    requires
        old(builder).wf(),
    ensures
        final(builder).wf(),
        r is Ok <==> old(builder).spec_entries().len() + entry.attributes@.len() + 3 <= usize::MAX,
        r is Ok ==> final(builder).spec_records() == old(builder).spec_records().push(entry@)
            && final(builder).spec_entries().len() == old(builder).spec_entries().len() + entry.attributes@.len() + 3,
        r is Err ==> (r matches Err(XtvError::TooLarge(_))),
        r is Err ==> final(builder).spec_records() == old(builder).spec_records()
            && final(builder).spec_entries() == old(builder).spec_entries(),
{
    proof {
        builder.lemma_wf();
        assert(all_attributes(entry@).len() == entry.attributes@.len() + 1);
    }
    let count = builder.entry_count();
    if entry.attributes.len() > usize::MAX - 3 || count > usize::MAX - 3 - entry.attributes.len() {
        let mut message = String::new();
        append_str(&mut message, "too many nodes for one index");
        return Err(XtvError::TooLarge(message));
    }
    builder.add_record(entry.offset, entry.dn.as_str(), &entry.attributes);
    proof {
        law_record_placement(old(builder).spec_entries(), entry@);
        builder.lemma_wf();
        assert(old(builder).spec_records().push(entry@).drop_last() =~= old(builder).spec_records());
    }
    Ok(())
}

/// The line `s[a..b]` without a carriage return at its end.
pub open spec fn line_text(s: Seq<char>, a: int, b: int) -> Seq<char> {
    if b > a && s[b - 1] == '\r' {
        s.subrange(a, b - 1)
    } else {
        s.subrange(a, b)
    }
}

/// The size in bytes of `s[a..b]`, plus one for a line end.
pub open spec fn line_bytes(s: Seq<char>, a: int, b: int, newline: bool) -> u64 {
    let n = (vstd::utf8::encode_utf8(s.subrange(a, b)).len() as usize) as u64;
    if newline {
        sat_add(n, 1)
    } else {
        n
    }
}

/// The lines of `s` from position `i`, the current line having started at
/// `start`: each with its text and its size in bytes, line end included.
/// Lines end at `\n`; text after the last `\n` is a last line.
pub open spec fn lines_from(s: Seq<char>, i: int, start: int) -> Seq<(Seq<char>, u64)>
    decreases s.len() - i,
{
    if i >= s.len() {
        if start < s.len() {
            seq![(line_text(s, start, s.len() as int), line_bytes(s, start, s.len() as int, false))]
        } else {
            Seq::empty()
        }
    } else if s[i] == '\n' {
        seq![(line_text(s, start, i), line_bytes(s, start, i, true))] + lines_from(s, i + 1, i + 1)
    } else {
        lines_from(s, i + 1, start)
    }
}

/// The records that a reader in state `v` yields from lines `ls`, after
/// `rs`; or the number of the first line that should have held a key.
pub open spec fn read_lines(v: ReaderView, ls: Seq<(Seq<char>, u64)>, rs: Seq<RecordView>) -> Result<(ReaderView, Seq<RecordView>), usize>
    decreases ls.len(),
{
    if ls.len() == 0 {
        Ok((v, rs))
    } else {
        let (v2, out) = step(v, ls[0].0, ls[0].1);
        match out {
            Err(e) => Err(e),
            Ok(Some(r)) => read_lines(v2, ls.drop_first(), rs.push(r)),
            Ok(None) => read_lines(v2, ls.drop_first(), rs),
        }
    }
}

/// The state of a reader that has read nothing.
pub open spec fn fresh_reader() -> ReaderView {
    ReaderView { line_no: 0, offset: 0, pending: None, record: None }
}

/// The records of a whole text, or the number of the line that breaks the
/// grammar.
pub open spec fn records_of(content: Seq<char>) -> Result<Seq<RecordView>, usize> {
    match read_lines(fresh_reader(), lines_from(content, 0, 0), Seq::empty()) {
        Err(e) => Err(e),
        Ok(p) => match finish_step(p.0).1 {
            Err(e) => Err(e),
            Ok(Some(r)) => Ok(p.1.push(r)),
            Ok(None) => Ok(p.1),
        },
    }
}

/// The text and byte size of the line `cs[start..end]`.
fn line_at(cs: &Vec<char>, start: usize, end: usize, newline: bool) -> (r: (String, u64))
    requires
        start <= end <= cs@.len(),
    ensures
        r.0@ == line_text(cs@, start as int, end as int),
        r.1 == line_bytes(cs@, start as int, end as int, newline),
{
    let whole = string_of_range(cs, start, end);
    let bytes = whole.as_str().len() as u64;
    let n = if newline { add_saturating(bytes, 1) } else { bytes };
    let mut stop = end;
    if stop > start && cs[stop - 1] == '\r' {
        stop = stop - 1;
    }
    (string_of_range(cs, start, stop), n)
}

/// `seen`, followed by the record of `got` if there is one.
pub open spec fn with_record(seen: Seq<RecordView>, got: Option<LdifEntry>) -> Seq<RecordView> {
    match got {
        Some(e) => seen.push(e@),
        None => seen,
    }
}

/// Hands a record, if any, to the builder, unless the index is already
/// full; `seen` are the records read before it. Returns whether the index
/// is full afterwards.
fn deliver(builder: &mut IndexBuilder, got: Option<LdifEntry>, full: bool, Ghost(seen): Ghost<Seq<RecordView>>) -> (now_full: bool)
    requires
        old(builder).wf(),
        !full ==> old(builder).spec_records() == seen && old(builder).spec_entries().len() == 1 + entries_for(seen),
        full ==> 1 + entries_for(seen) > usize::MAX,
    ensures
        final(builder).wf(),
        ({
            let seen2 = with_record(seen, got);
            &&& !now_full ==> final(builder).spec_records() == seen2 && final(builder).spec_entries().len() == 1
                + entries_for(seen2)
            &&& now_full ==> 1 + entries_for(seen2) > usize::MAX
        }),
{
    match got {
        Some(entry) => {
            proof {
                assert(seen.push(entry@).drop_last() =~= seen);
                assert(all_attributes(entry@).len() == entry.attributes@.len() + 1);
            }
            if full {
                return true;
            }
            match add_entry_to(builder, &entry) {
                Ok(()) => false,
                Err(_) => true,
            }
        },
        None => full,
    }
}

/// The structural index of a whole file given as text: the index of its
/// records, or the error of the first line that should have held a key;
/// `TooLarge` only when the records need more entries than `usize` counts.
pub fn build_index(content: &str) -> (r: Result<LdifIndex, XtvError>)
    ensures
        r is Ok ==> r->Ok_0@.len() >= 1 && r->Ok_0.spec_root_id() == 0 && well_linked(r->Ok_0@),
        match records_of(content@) {
            Ok(rs) => if 1 + entries_for(rs) <= usize::MAX {
                r is Ok && r->Ok_0@ == index_of(rs)
            } else {
                r matches Err(XtvError::TooLarge(_))
            },
            Err(line) => r matches Err(XtvError::LdifParse { line: l, .. }) && l == line,
        },
{
    let cs = chars_of(content);
    let mut reader = RecordReader::new();
    let mut builder = IndexBuilder::new();
    let mut full = false;
    let ghost mut seen: Seq<RecordView> = Seq::empty();
    proof {
        builder.lemma_wf();
    }
    let ghost whole = read_lines(fresh_reader(), lines_from(cs@, 0, 0), Seq::empty());
    let mut start: usize = 0;
    let mut i: usize = 0;
    while i < cs.len()
        invariant
            start <= i <= cs@.len(),
            cs@ == content@,
            builder.wf(),
            !full ==> builder.spec_records() == seen && builder.spec_entries().len() == 1 + entries_for(seen),
            full ==> 1 + entries_for(seen) > usize::MAX,
            whole == read_lines(fresh_reader(), lines_from(cs@, 0, 0), Seq::empty()),
            whole == read_lines(reader@, lines_from(cs@, i as int, start as int), seen),
        decreases cs@.len() - i,
    {
        if cs[i] == '\n' {
            let (line, n) = line_at(&cs, start, i, true);
            proof {
                let ls = lines_from(cs@, i as int, start as int);
                assert(ls == seq![(line@, n)] + lines_from(cs@, i + 1, i + 1));
                assert(ls[0] == (line@, n));
                assert(ls.drop_first() =~= lines_from(cs@, i + 1, i + 1));
            }
            match reader.push_line(line.as_str(), n) {
                Ok(got) => {
                    let ghost next = with_record(seen, got);
                    full = deliver(&mut builder, got, full, Ghost(seen));
                    proof {
                        seen = next;
                    }
                },
                Err(e) => return Err(e),
            }
            start = i + 1;
        } else {
            assert(lines_from(cs@, i as int, start as int) == lines_from(cs@, i + 1, start as int));
        }
        i = i + 1;
    }
    if start < cs.len() {
        let (line, n) = line_at(&cs, start, cs.len(), false);
        proof {
            let ls = lines_from(cs@, cs@.len() as int, start as int);
            assert(ls == seq![(line@, n)]);
            assert(ls[0] == (line@, n));
            assert(ls.drop_first() =~= Seq::<(Seq<char>, u64)>::empty());
        }
        match reader.push_line(line.as_str(), n) {
            Ok(got) => {
                let ghost next = with_record(seen, got);
                full = deliver(&mut builder, got, full, Ghost(seen));
                proof {
                    seen = next;
                }
            },
            Err(e) => return Err(e),
        }
        assert(whole == read_lines(reader@, Seq::<(Seq<char>, u64)>::empty(), seen));
    } else {
        assert(lines_from(cs@, cs@.len() as int, start as int) =~= Seq::<(Seq<char>, u64)>::empty());
        assert(whole == read_lines(reader@, Seq::<(Seq<char>, u64)>::empty(), seen));
    }
    assert(whole == Ok::<(ReaderView, Seq<RecordView>), usize>((reader@, seen)));
    match reader.finish() {
        Ok(got) => {
            let ghost next = with_record(seen, got);
            full = deliver(&mut builder, got, full, Ghost(seen));
            proof {
                seen = next;
            }
        },
        Err(e) => return Err(e),
    }
    if full {
        let mut message = String::new();
        append_str(&mut message, "too many nodes for one index");
        return Err(XtvError::TooLarge(message));
    }
    let _count = builder.entry_count();
    proof {
        builder.lemma_wf();
        law_index_linked(seen);
    }
    let index = builder.finish();
    Ok(index)
}

/// Reads record files into the in-memory tree.
pub struct LdifParser;

impl LdifParser {
    /// The in-memory tree of a whole file given as text.
    pub fn parse(&self, content: &str) -> (r: Result<Tree, XtvError>)
        ensures
            r is Ok ==> r->Ok_0.wf(),
            match records_of(content@) {
                Ok(rs) => if 1 + entries_for(rs) <= usize::MAX {
                    r is Ok && r->Ok_0@ == tree_of_index(index_of(rs))
                } else {
                    r matches Err(XtvError::TooLarge(_))
                },
                Err(line) => r matches Err(XtvError::LdifParse { line: l, .. }) && l == line,
            },
    {
        match build_index(content) {
            Ok(index) => Ok(tree_from_index(&index)),
            Err(e) => Err(e),
        }
    }

    /// Whether a path names a record file, by its extension.
    pub fn can_parse(&self, file_path: &str) -> (r: bool)
        ensures
            r == crate::formats::has_extension(file_path@, "ldif"@),
    {
        crate::formats::extension_is(file_path, "ldif")
    }
}

} // verus!
