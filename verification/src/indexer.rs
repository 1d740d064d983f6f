use vstd::prelude::*;

verus! {

use vstd::utf8::decode_utf8;
use vstd::utf8::encode_utf8;
use vstd::utf8::valid_utf8;
use crate::binfmt::binary_of;
use crate::binfmt::encodable;
use crate::binfmt::encode_lines;
use crate::lineindex::build_index;
use crate::lineindex::lemma_offsets_unique;
use crate::lineindex::valid_offsets;
use crate::rx::pattern_of;
use crate::rx::pattern_valid;
use crate::rx::regex_is_match;
use crate::rx::regex_matches;
use crate::rx::regex_new;
use vstd::string::StringExecFns;
use crate::text::lossy_decode;
use crate::text::lossy_utf8;
use crate::text::strict_decode;

/// Why a log file could not be opened or searched.
#[derive(Debug)]
pub enum IndexerError {
    /// The underlying file could not be opened or mapped; holds the
    /// reported message.
    FileOpen(String),
    /// The file holds no bytes at all.
    EmptyFile,
    /// A line range does not fit the file: start, count, total lines.
    InvalidRange(u64, u64, u64),
    /// The search pattern is not a valid regular expression; holds the
    /// reported message.
    InvalidPattern(String),
}

impl IndexerError {
    /// The error's display form.
    pub open spec fn spec_message(self) -> Seq<char> {
        match self {
            IndexerError::FileOpen(m) => "Failed to open file: "@ + m@,
            IndexerError::EmptyFile => "File is empty"@,
            IndexerError::InvalidRange(_, _, _) => "Invalid line range"@,
            IndexerError::InvalidPattern(m) => "Invalid pattern: "@ + m@,
        }
    }

    /// The error rendered as a message for the caller.
    pub fn message(&self) -> (r: String)
        ensures
            r@ == self.spec_message(),
    {
        match self {
            IndexerError::FileOpen(m) => String::from_str("Failed to open file: ").concat(
                m.as_str(),
            ),
            IndexerError::EmptyFile => String::from_str("File is empty"),
            IndexerError::InvalidRange(_, _, _) => String::from_str("Invalid line range"),
            IndexerError::InvalidPattern(m) => String::from_str("Invalid pattern: ").concat(
                m.as_str(),
            ),
        }
    }
}

/// An immutable view of a file's bytes with a pre-built line index, for
/// random access to any line. The bytes must not change for the life of
/// the view; a file mutated on disk while mapped is outside the contract
/// of the surrounding application layer.
pub struct LogFile {
    /// The file's content.
    pub bytes: Vec<u8>,
    /// Byte offset where each line starts; strictly increasing, first
    /// entry 0.
    pub line_offsets: Vec<u64>,
    /// Total length of `bytes`.
    pub file_size: u64,
    /// Originating path, kept for reporting.
    pub path: String,
}

impl LogFile {
    /// Internal consistency: the file is not empty, the recorded size is
    /// the byte count, and the offsets are exactly the line starts of
    /// the content, in ascending order.
    pub open spec fn wf(self) -> bool {
        &&& self.bytes@.len() > 0
        &&& self.file_size == self.bytes@.len()
        &&& valid_offsets(self.bytes@, self.line_offsets@)
        &&& self.line_offsets@.len() >= 1
    }

    /// Number of lines: one per recorded line start.
    pub open spec fn spec_line_count(self) -> nat {
        self.line_offsets@.len()
    }

    /// Where line `i` begins.
    pub open spec fn line_start(self, i: int) -> int {
        self.line_offsets@[i] as int
    }

    /// One past the raw end of line `i`: the next line's start, or the
    /// end of the buffer for the last line.
    pub open spec fn line_end_raw(self, i: int) -> int {
        if i + 1 < self.line_offsets@.len() {
            self.line_offsets@[i + 1] as int
        } else {
            self.bytes@.len() as int
        }
    }

    /// The raw bytes of line `i`, trailing newline included for all but
    /// the last line.
    pub open spec fn raw_line(self, i: int) -> Seq<u8> {
        self.bytes@.subrange(self.line_start(i), self.line_end_raw(i))
    }

    /// One past the end of line `i`'s visible content: the newline, and a
    /// carriage return just before it, are not part of the content. The
    /// last line runs to the end of the buffer, less a trailing newline
    /// if the file ends with one.
    pub open spec fn content_end(self, i: int) -> int {
        let s = self.line_start(i);
        let e = if i + 1 < self.line_offsets@.len() {
            (self.line_offsets@[i + 1] as int) - 1
        } else {
            let l = self.bytes@.len() as int;
            if l > s && self.bytes@[l - 1] == 10u8 {
                l - 1
            } else {
                l
            }
        };
        if e > s && self.bytes@[e - 1] == 13u8 {
            e - 1
        } else {
            e
        }
    }

    /// The visible content of line `i`.
    pub open spec fn line_bytes(self, i: int) -> Seq<u8> {
        self.bytes@.subrange(self.line_start(i), self.content_end(i))
    }

    /// How many lines a request for `count` lines from `start` yields:
    /// `count` clamped to the lines that exist at and after `start`.
    pub open spec fn clamped_count(self, start: u64, count: u64) -> int {
        let n = self.spec_line_count() as int;
        if start as int >= n {
            0
        } else if count as int <= n - start as int {
            count as int
        } else {
            n - start as int
        }
    }

    /// Build an indexed view of a file's content. The index is complete
    /// before the view exists, so every `LogFile` is well formed from
    /// creation on. A file with no bytes is rejected, distinctly from
    /// any I/O failure.
    pub fn from_bytes(path: String, bytes: Vec<u8>) -> (r: Result<LogFile, IndexerError>)
        ensures
            r is Err <==> bytes@.len() == 0,
            r matches Err(e) ==> e is EmptyFile,
            r matches Ok(lf) ==> lf.wf() && lf.bytes@ == bytes@ && lf.path@ == path@,
    {
        if bytes.len() == 0 {
            return Err(IndexerError::EmptyFile);
        }
        let line_offsets = build_index(bytes.as_slice());
        let file_size = bytes.len() as u64;
        Ok(LogFile { bytes, line_offsets, file_size, path })
    }

    /// Total number of lines in the file.
    pub fn line_count(&self) -> (r: u64)
        requires
            self.wf(),
        ensures
            r == self.spec_line_count(),
    {
        self.line_offsets.len() as u64
    }

    /// The file size in bytes.
    pub fn file_size(&self) -> (r: u64)
        requires
            self.wf(),
        ensures
            r == self.bytes@.len(),
    {
        self.file_size
    }

    /// The originating file path.
    pub fn path(&self) -> (r: &str)
        ensures
            r@ == self.path@,
    {
        self.path.as_str()
    }

    /// Raw access to the file's content.
    pub fn data(&self) -> (r: &[u8])
        ensures
            r@ == self.bytes@,
    {
        self.bytes.as_slice()
    }

    /// What a correct answer to a line-range request is: one text per
    /// selected line, each the lossy decoding of that line's content.
    pub open spec fn lines_spec(self, start: u64, count: u64, v: Seq<String>) -> bool {
        &&& v.len() == self.clamped_count(start, count)
        &&& forall|j: int|
            0 <= j < v.len() ==> (#[trigger] v[j])@ == lossy_utf8(self.line_bytes(start as int + j))
    }

    /// A range of lines as text. The count is clamped to the file: a
    /// start at or past the last line yields an empty list, never an
    /// error. Each line is decoded lossily, so binary-contaminated logs
    /// can still be viewed.
    pub fn get_lines(&self, start: u64, count: u64) -> (r: Result<Vec<String>, IndexerError>)
        requires
            self.wf(),
        ensures
            r is Ok,
            r matches Ok(v) ==> self.lines_spec(start, count, v@),
    {
        let total_lines: usize = self.line_offsets.len();
        if start >= total_lines as u64 {
            return Ok(Vec::new());
        }
        let remaining: u64 = total_lines as u64 - start;
        let actual_count: u64 = if count <= remaining {
            count
        } else {
            remaining
        };
        let data_len: usize = self.bytes.len();
        let mut lines: Vec<String> = Vec::new();
        let mut i: u64 = 0;
        while i < actual_count
            invariant
                self.wf(),
                total_lines == self.line_offsets@.len(),
                data_len == self.bytes@.len(),
                start < total_lines as u64,
                actual_count <= total_lines as u64 - start,
                i <= actual_count,
                lines@.len() == i,
                forall|j: int|
                    0 <= j < i ==> lines@[j]@ == lossy_utf8(
                        #[trigger] self.line_bytes(start as int + j),
                    ),
            decreases actual_count - i,
        {
            let idx: usize = (start + i) as usize;
            proof {
                assert((self.line_offsets@[idx as int] as int) < data_len);
                if idx + 1 < total_lines {
                    assert(self.line_offsets@[idx as int] < self.line_offsets@[idx as int + 1]);
                    assert((self.line_offsets@[idx as int + 1] as int) < data_len);
                }
            }
            let line_start: usize = self.line_offsets[idx] as usize;
            let line_end: usize = if idx + 1 < total_lines {
                (self.line_offsets[idx + 1] as usize) - 1
            } else {
                if data_len > line_start && self.bytes[data_len - 1] == 10u8 {
                    data_len - 1
                } else {
                    data_len
                }
            };
            let actual_end: usize = if line_end > line_start {
                if self.bytes[line_end - 1] == 13u8 {
                    line_end - 1
                } else {
                    line_end
                }
            } else {
                line_start
            };
            proof {
                assert(line_start as int == self.line_start(idx as int));
                assert(actual_end as int == self.content_end(idx as int));
            }
            let piece = vstd::slice::slice_subrange(self.bytes.as_slice(), line_start, actual_end);
            let text = lossy_decode(piece);
            lines.push(text);
            i = i + 1;
        }
        Ok(lines)
    }

    /// The encoded UTF-8 bytes of each line text in a requested range,
    /// in order: what the binary transport layout carries.
    pub open spec fn encoded_range(self, start: u64, count: u64) -> Seq<Seq<u8>> {
        Seq::new(
            self.clamped_count(start, count) as nat,
            |j: int| encode_utf8(lossy_utf8(self.line_bytes(start as int + j))),
        )
    }

    /// A range of lines serialized for compact transport, in the layout
    /// of `binfmt::binary_of`, reproduced bit for bit so any consumer
    /// can decode it. Fails only when the line count or a line's byte
    /// length overflows a 32-bit header field.
    pub fn get_lines_binary(&self, start: u64, count: u64) -> (r: Result<Vec<u8>, IndexerError>)
        requires
            self.wf(),
        ensures
            r is Ok <==> encodable(self.encoded_range(start, count)),
            r matches Ok(b) ==> b@ == binary_of(self.encoded_range(start, count)),
            r matches Err(e) ==> e is InvalidRange,
    {
        let ghost els = self.encoded_range(start, count);
        let lines = match self.get_lines(start, count) {
            Ok(v) => v,
            Err(e) => {
                // get_lines never fails, so this arm cannot be reached
                proof {
                    assert(false);
                }
                return Err(e);
            },
        };
        proof {
            assert(lines@.map_values(|s: String| encode_utf8(s@)) =~= els);
        }
        match encode_lines(&lines) {
            Some(b) => Ok(b),
            None => Err(IndexerError::InvalidRange(start, count, self.line_count())),
        }
    }

    /// Whether line `i`'s raw bytes decode strictly as UTF-8 and that
    /// text matches the pattern. Lines that do not decode never match.
    pub open spec fn line_matches(self, pat: Seq<char>, i: int) -> bool {
        valid_utf8(self.raw_line(i)) && regex_matches(pat, decode_utf8(self.raw_line(i)))
    }

    /// The numbers of the matching lines below `n`, in ascending order.
    pub open spec fn matches_upto(self, pat: Seq<char>, n: int) -> Seq<u64>
        decreases n,
    {
        if n <= 0 {
            Seq::empty()
        } else if self.line_matches(pat, n - 1) {
            self.matches_upto(pat, n - 1).push((n - 1) as u64)
        } else {
            self.matches_upto(pat, n - 1)
        }
    }

    /// What a capped search yields: every matching line number when they
    /// fit the cap, else exactly the first `max` of them.
    pub open spec fn search_result(self, pat: Seq<char>, max: int) -> Seq<u64> {
        let all = self.matches_upto(pat, self.spec_line_count() as int);
        if all.len() <= max {
            all
        } else {
            all.subrange(0, max)
        }
    }

    /// The matching lines below a smaller bound are a prefix of those
    /// below a larger one.
    proof fn lemma_matches_prefix(self, pat: Seq<char>, n: int, m: int)
        requires
            0 <= n <= m,
        ensures
            self.matches_upto(pat, n).len() <= self.matches_upto(pat, m).len(),
            self.matches_upto(pat, n) == self.matches_upto(pat, m).subrange(
                0,
                self.matches_upto(pat, n).len() as int,
            ),
        decreases m - n,
    {
        if n < m {
            self.lemma_matches_prefix(pat, n, m - 1);
            let a = self.matches_upto(pat, n);
            let b = self.matches_upto(pat, m - 1);
            let c = self.matches_upto(pat, m);
            assert(c.subrange(0, a.len() as int) =~= b.subrange(0, a.len() as int));
        } else {
            assert(self.matches_upto(pat, n) =~= self.matches_upto(pat, m).subrange(
                0,
                self.matches_upto(pat, n).len() as int,
            ));
        }
    }

    /// Find the lines whose raw text matches a pattern: the matching
    /// line numbers in ascending order, capped at `max_results`. Lines
    /// that are not valid UTF-8 are skipped rather than reported. A
    /// pattern that does not compile is rejected, distinctly from any
    /// I/O failure.
    pub fn search(&self, pattern: &str, max_results: usize) -> (r: Result<Vec<u64>, IndexerError>)
        requires
            self.wf(),
        ensures
            r is Ok <==> pattern_valid(pattern@),
            r matches Err(e) ==> e is InvalidPattern,
            r matches Ok(v) ==> v@ == self.search_result(pattern@, max_results as int),
    {
        let re = match regex_new(pattern) {
            Ok(re) => re,
            Err(m) => {
                return Err(IndexerError::InvalidPattern(m));
            },
        };
        let total_lines: usize = self.line_offsets.len();
        let data_len: usize = self.bytes.len();
        let mut results: Vec<u64> = Vec::new();
        let mut i: usize = 0;
        while i < total_lines && results.len() < max_results
            invariant
                self.wf(),
                pattern_of(re) == pattern@,
                total_lines == self.line_offsets@.len(),
                data_len == self.bytes@.len(),
                i <= total_lines,
                results@ == self.matches_upto(pattern@, i as int),
                results@.len() <= max_results,
            decreases total_lines - i,
        {
            proof {
                assert((self.line_offsets@[i as int] as int) < data_len);
                if i + 1 < total_lines {
                    assert(self.line_offsets@[i as int] < self.line_offsets@[i as int + 1]);
                    assert((self.line_offsets@[i as int + 1] as int) <= data_len);
                }
            }
            let line_start: usize = self.line_offsets[i] as usize;
            let line_end: usize = if i + 1 < total_lines {
                self.line_offsets[i + 1] as usize
            } else {
                data_len
            };
            let piece = vstd::slice::slice_subrange(self.bytes.as_slice(), line_start, line_end);
            proof {
                assert(piece@ == self.raw_line(i as int));
            }
            match strict_decode(piece) {
                Some(text) => {
                    if regex_is_match(&re, text.as_str()) {
                        results.push(i as u64);
                    }
                },
                None => {},
            }
            i = i + 1;
        }
        proof {
            let all = self.matches_upto(pattern@, total_lines as int);
            if i < total_lines {
                self.lemma_matches_prefix(pattern@, i as int, total_lines as int);
                assert(results@.len() == max_results);
                assert(all.len() >= max_results);
                if all.len() > max_results {
                    assert(results@ == all.subrange(0, max_results as int));
                } else {
                    assert(results@ =~= all);
                }
            }
        }
        Ok(results)
    }
}

/// The result of a capped search is strictly ascending, never longer
/// than the cap, and every reported line number is below the line count
/// and names a line whose text matches the pattern.
pub proof fn lemma_search_result_sound(lf: LogFile, pat: Seq<char>, max: int)
    requires
        max >= 0,
        lf.spec_line_count() <= u64::MAX,
    ensures
        ({
            let v = lf.search_result(pat, max);
            &&& v.len() <= max
            &&& forall|a: int, b: int| 0 <= a < b < v.len() ==> v[a] < v[b]
            &&& forall|a: int|
                0 <= a < v.len() ==> (#[trigger] v[a] as int) < lf.spec_line_count()
                    && lf.line_matches(pat, v[a] as int)
        }),
{
    let n = lf.spec_line_count() as int;
    lemma_matches_upto_sound(lf, pat, n);
    let all = lf.matches_upto(pat, n);
    let v = lf.search_result(pat, max);
    assert forall|a: int, b: int| 0 <= a < b < v.len() implies v[a] < v[b] by {
        assert(v[a] == all[a] && v[b] == all[b]);
    }
}

/// The matching lines below `n` are strictly ascending, below `n`, and
/// all match; every matching line below `n` is among them.
pub proof fn lemma_matches_upto_sound(lf: LogFile, pat: Seq<char>, n: int)
    requires
        n <= u64::MAX,
    ensures
        ({
            let all = lf.matches_upto(pat, n);
            &&& forall|a: int, b: int| 0 <= a < b < all.len() ==> all[a] < all[b]
            &&& forall|a: int|
                0 <= a < all.len() ==> 0 <= (#[trigger] all[a] as int) < n && lf.line_matches(
                    pat,
                    all[a] as int,
                )
            &&& forall|p: int|
                0 <= p < n && #[trigger] lf.line_matches(pat, p) ==> all.contains(p as u64)
        }),
    decreases n,
{
    if n > 0 {
        lemma_matches_upto_sound(lf, pat, n - 1);
        let prev = lf.matches_upto(pat, n - 1);
        let all = lf.matches_upto(pat, n);
        assert forall|a: int|
            0 <= a < all.len() implies 0 <= (#[trigger] all[a] as int) < n && lf.line_matches(
            pat,
            all[a] as int,
        ) by {
            if a < prev.len() {
                assert(all[a] == prev[a]);
            } else {
                assert(all[a] == (n - 1) as u64);
            }
        }
        assert forall|a: int, b: int| 0 <= a < b < all.len() implies all[a] < all[b] by {
            if b < prev.len() {
                assert(prev[a] < prev[b]);
            } else {
                assert(all[b] == all[all.len() - 1]);
                assert((all[a] as int) < n - 1 || a < prev.len());
                if lf.line_matches(pat, n - 1) {
                    assert(all[a] == prev[a]);
                    assert((prev[a] as int) < n - 1);
                    assert(all[b] == (n - 1) as u64);
                }
            }
        }
        assert forall|p: int| 0 <= p < n && #[trigger] lf.line_matches(pat, p) implies all.contains(
            p as u64,
        ) by {
            if p < n - 1 {
                let w = choose|w: int| 0 <= w < prev.len() && prev[w] == p as u64;
                assert(all[w] == p as u64);
            } else {
                assert(all[all.len() - 1] == p as u64);
            }
        }
    }
}

/// Building the index is idempotent: any two well-formed views of the
/// same content carry the same offsets, hence the same line count.
pub proof fn lemma_open_idempotent(a: LogFile, b: LogFile)
    requires
        a.wf(),
        b.wf(),
        a.bytes@ == b.bytes@,
    ensures
        a.line_offsets@ == b.line_offsets@,
        a.spec_line_count() == b.spec_line_count(),
{
    lemma_offsets_unique(a.bytes@, a.line_offsets@, b.line_offsets@);
}

/// The transport round-trip law: a blob built for a line range parses
/// back, segment by segment, to exactly the texts that `get_lines`
/// yields for the same range.
pub proof fn lemma_binary_matches_lines(
    lf: LogFile,
    start: u64,
    count: u64,
    v: Seq<String>,
    b: Seq<u8>,
)
    requires
        lf.lines_spec(start, count, v),
        b == binary_of(lf.encoded_range(start, count)),
        encodable(lf.encoded_range(start, count)),
    ensures
        crate::binfmt::spec_decode(b) is Some,
        ({
            let ls = crate::binfmt::spec_decode(b)->Some_0;
            &&& ls.len() == v.len()
            &&& forall|j: int|
                0 <= j < v.len() ==> valid_utf8(#[trigger] ls[j]) && decode_utf8(ls[j]) == v[j]@
        }),
{
    let els = lf.encoded_range(start, count);
    let texts = Seq::new(els.len(), |j: int| lossy_utf8(lf.line_bytes(start as int + j)));
    assert(els =~= texts.map_values(|t: Seq<char>| encode_utf8(t)));
    assert forall|i: int| 0 <= i < texts.len() implies encode_utf8(#[trigger] texts[i]).len()
        <= u32::MAX by {
        assert(els[i] == encode_utf8(texts[i]));
    }
    crate::binfmt::lemma_binary_recovers_text(texts);
    let ls = crate::binfmt::spec_decode(b)->Some_0;
    assert forall|j: int| 0 <= j < v.len() implies valid_utf8(#[trigger] ls[j]) && decode_utf8(
        ls[j],
    ) == v[j]@ by {
        assert(ls[j] == els[j]);
        assert(texts[j] == v[j]@);
    }
}

/// Some well-formed view answers the line-range request with these
/// texts.
pub open spec fn some_view_lines(start: u64, count: u64, v: Seq<String>) -> bool {
    exists|lf: LogFile| lf.wf() && #[trigger] lf.lines_spec(start, count, v)
}

/// Some well-formed view serializes the requested range to exactly
/// these bytes.
pub open spec fn some_view_binary(start: u64, count: u64, b: Seq<u8>) -> bool {
    exists|lf: LogFile|
        lf.wf() && b == binary_of(#[trigger] lf.encoded_range(start, count)) && encodable(
            lf.encoded_range(start, count),
        )
}

/// Some well-formed view yields exactly this capped search result.
pub open spec fn some_view_search(pat: Seq<char>, max: int, v: Seq<u64>) -> bool {
    exists|lf: LogFile| lf.wf() && v == #[trigger] lf.search_result(pat, max)
}

/// Some well-formed view has this line count.
pub open spec fn some_view_count(c: u64) -> bool {
    exists|lf: LogFile| lf.wf() && c == #[trigger] lf.spec_line_count()
}

/// Some well-formed view carries this path, size and line count
/// together.
pub open spec fn some_view_meta(path: Seq<char>, size: u64, c: u64) -> bool {
    exists|lf: LogFile|
        lf.wf() && path == lf.path@ && size == lf.bytes@.len() && c
            == #[trigger] lf.spec_line_count()
}

/// The invariant of the shared slot: whatever view is stored is well
/// formed.
pub struct SlotInv;

impl vstd::rwlock::RwLockPredicate<Option<LogFile>> for SlotInv {
    open spec fn inv(self, v: Option<LogFile>) -> bool {
        v matches Some(lf) ==> lf.wf()
    }
}

/// A thread-safe slot holding at most one open log view. Any number of
/// readers share access at once; an open or close takes the lock
/// exclusively only for the swap itself, never for the index build, and
/// waits for current readers. A reader that has acquired access works
/// against the one view it was handed, whatever a concurrent open does
/// to the slot meanwhile.
pub struct SharedLogFile {
    pub inner: vstd::rwlock::RwLock<Option<LogFile>, SlotInv>,
}

impl SharedLogFile {
    /// An empty slot: no file open.
    pub fn new() -> SharedLogFile {
        SharedLogFile { inner: vstd::rwlock::RwLock::new(None, Ghost(SlotInv)) }
    }

    /// Put a finished view into the slot, replacing any previous one.
    pub fn install(&self, lf: LogFile)
        requires
            lf.wf(),
    {
        let (_prev, handle) = self.inner.acquire_write();
        handle.release_write(Some(lf));
    }

    /// Build a view of the given content and swap it in; the slot is
    /// untouched when the content is empty.
    pub fn open(&self, path: String, bytes: Vec<u8>) -> (r: Result<(), IndexerError>)
        ensures
            r is Err <==> bytes@.len() == 0,
            r matches Err(e) ==> e is EmptyFile,
    {
        let lf = match LogFile::from_bytes(path, bytes) {
            Ok(lf) => lf,
            Err(e) => {
                return Err(e);
            },
        };
        self.install(lf);
        Ok(())
    }

    /// Empty the slot.
    pub fn close(&self) {
        let (_prev, handle) = self.inner.acquire_write();
        handle.release_write(None);
    }

    /// Whether a file was open at the moment of the check.
    pub fn is_open(&self) -> bool {
        let handle = self.inner.acquire_read();
        let r = handle.borrow().is_some();
        handle.release_read();
        r
    }

    /// Read a line range from the current view, if one is open. The
    /// whole read happens against a single well-formed view under
    /// shared access.
    pub fn get_lines(&self, start: u64, count: u64) -> (r: Option<
        Result<Vec<String>, IndexerError>,
    >)
        ensures
            r matches Some(res) ==> res is Ok && (res matches Ok(v) ==> some_view_lines(
                start,
                count,
                v@,
            )),
    {
        let handle = self.inner.acquire_read();
        let r = match handle.borrow() {
            Some(lf) => Some(lf.get_lines(start, count)),
            None => None,
        };
        handle.release_read();
        r
    }

    /// Serialize a line range from the current view, if one is open.
    pub fn get_lines_binary(&self, start: u64, count: u64) -> (r: Option<
        Result<Vec<u8>, IndexerError>,
    >)
        ensures
            r matches Some(res) ==> {
                &&& (res matches Ok(b) ==> some_view_binary(start, count, b@))
                &&& (res matches Err(e) ==> e is InvalidRange)
            },
    {
        let handle = self.inner.acquire_read();
        let r = match handle.borrow() {
            Some(lf) => Some(lf.get_lines_binary(start, count)),
            None => None,
        };
        handle.release_read();
        r
    }

    /// Search the current view, if one is open.
    pub fn search(&self, pattern: &str, max_results: usize) -> (r: Option<
        Result<Vec<u64>, IndexerError>,
    >)
        ensures
            r matches Some(res) ==> {
                &&& (res is Ok <==> pattern_valid(pattern@))
                &&& (res matches Ok(v) ==> some_view_search(pattern@, max_results as int, v@))
                &&& (res matches Err(e) ==> e is InvalidPattern)
            },
    {
        let handle = self.inner.acquire_read();
        let r = match handle.borrow() {
            Some(lf) => Some(lf.search(pattern, max_results)),
            None => None,
        };
        handle.release_read();
        r
    }

    /// The line count of the current view, if one is open.
    pub fn line_count(&self) -> (r: Option<u64>)
        ensures
            r matches Some(c) ==> some_view_count(c),
    {
        let handle = self.inner.acquire_read();
        let r = match handle.borrow() {
            Some(lf) => Some(lf.line_count()),
            None => None,
        };
        handle.release_read();
        r
    }

    /// Path, size and line count of the current view, if one is open,
    /// all taken from the same view.
    pub fn snapshot(&self) -> (r: Option<(String, u64, u64)>)
        ensures
            r matches Some(t) ==> some_view_meta(t.0@, t.1, t.2),
    {
        let handle = self.inner.acquire_read();
        let r = match handle.borrow() {
            Some(lf) => Some((lf.path.clone(), lf.file_size(), lf.line_count())),
            None => None,
        };
        handle.release_read();
        r
    }
}

impl Default for SharedLogFile {
    /// An empty slot, as `new` gives.
    fn default() -> SharedLogFile {
        SharedLogFile::new()
    }
}

} // verus!
