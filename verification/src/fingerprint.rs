//! The fingerprint cache: the digest of the selected files, the file that
//! keeps it together with the list it was made from, and the test that says
//! whether what is kept can be used again.

use crate::context::{ContextError, ContextMode, ContextSha};
use crate::paths::{abs_path, abs_path_of};
use crate::text::{
    chars_of, join, join_strings, lines, lines_of, push_char, same_chars, string_of, vec_views,
    views,
};
use sha1::{Digest, Sha1};
use vstd::prelude::*;

verus! {

/// The SHA-1 digest of a sequence of bytes.
pub uninterp spec fn sha1_of(data: Seq<u8>) -> Seq<u8>;

/// `Sha1::digest` of the `sha1` crate: the SHA-1 digest of `data`, which has
/// 20 bytes. The digest depends on the bytes alone.
#[verifier::external_body]
fn sha1_digest(data: &Vec<u8>) -> (out: Vec<u8>)
    ensures
        out@ == sha1_of(data@),
        out@.len() == 20,
{
    Sha1::digest(data).to_vec()
}

/// The lower-case hexadecimal digit for a value below 16.
pub open spec fn hex_digit(n: int) -> char {
    if n == 0 {
        '0'
    } else if n == 1 {
        '1'
    } else if n == 2 {
        '2'
    } else if n == 3 {
        '3'
    } else if n == 4 {
        '4'
    } else if n == 5 {
        '5'
    } else if n == 6 {
        '6'
    } else if n == 7 {
        '7'
    } else if n == 8 {
        '8'
    } else if n == 9 {
        '9'
    } else if n == 10 {
        'a'
    } else if n == 11 {
        'b'
    } else if n == 12 {
        'c'
    } else if n == 13 {
        'd'
    } else if n == 14 {
        'e'
    } else {
        'f'
    }
}

/// The bytes written in hexadecimal, two lower-case digits each.
pub open spec fn hex_of(data: Seq<u8>) -> Seq<char>
    decreases data.len(),
{
    if data.len() == 0 {
        seq![]
    } else {
        hex_of(data.drop_last()).push(hex_digit(data.last() as int / 16)).push(
            hex_digit(data.last() as int % 16),
        )
    }
}

/// Hexadecimal text has two characters for each byte.
pub proof fn lemma_hex_len(data: Seq<u8>)
    ensures
        hex_of(data).len() == 2 * data.len(),
    decreases data.len(),
{
    if data.len() > 0 {
        lemma_hex_len(data.drop_last());
    }
}

fn hex_char(n: u8) -> (c: char)
    requires
        n < 16,
    ensures
        c == hex_digit(n as int),
{
    if n == 0 {
        '0'
    } else if n == 1 {
        '1'
    } else if n == 2 {
        '2'
    } else if n == 3 {
        '3'
    } else if n == 4 {
        '4'
    } else if n == 5 {
        '5'
    } else if n == 6 {
        '6'
    } else if n == 7 {
        '7'
    } else if n == 8 {
        '8'
    } else if n == 9 {
        '9'
    } else if n == 10 {
        'a'
    } else if n == 11 {
        'b'
    } else if n == 12 {
        'c'
    } else if n == 13 {
        'd'
    } else if n == 14 {
        'e'
    } else {
        'f'
    }
}

fn byte_at(v: &Vec<u8>, i: usize) -> (b: u8)
    requires
        i < v.len(),
    ensures
        b == v@[i as int],
{
    v[i]
}

/// The bytes of `data` in lower-case hexadecimal.
pub fn to_hex(data: &Vec<u8>) -> (out: String)
    ensures
        out@ == hex_of(data@),
{
    let mut out = String::new();
    let mut i: usize = 0;
    while i < data.len()
        invariant
            i <= data.len(),
            out@ == hex_of(data@.take(i as int)),
        decreases data.len() - i,
    {
        let b = byte_at(data, i);
        assert(data@.take(i + 1).drop_last() == data@.take(i as int));
        assert(data@.take(i + 1).last() == b);
        push_char(&mut out, hex_char(b / 16));
        push_char(&mut out, hex_char(b % 16));
        i += 1;
    }
    assert(data@.take(data.len() as int) == data@);
    out
}

/// What a vector of file contents stands for: the bytes of each file, or
/// nothing for an entry that was no regular file when it was read.
pub open spec fn byte_views(v: Seq<Option<Vec<u8>>>) -> Seq<Option<Seq<u8>>> {
    Seq::new(
        v.len(),
        |i: int|
            match v[i] {
                Some(bytes) => Some(bytes@),
                None => None,
            },
    )
}

/// The bytes of all regular files, one after the other in the order of the
/// list.
pub open spec fn context_bytes(contents: Seq<Option<Seq<u8>>>) -> Seq<u8>
    decreases contents.len(),
{
    if contents.len() == 0 {
        seq![]
    } else {
        match contents.last() {
            Some(bytes) => context_bytes(contents.drop_last()) + bytes,
            None => context_bytes(contents.drop_last()),
        }
    }
}

/// The digest of a build context: one SHA-1 over the bytes of all its
/// regular files, in hexadecimal.
pub open spec fn digest_of(contents: Seq<Option<Seq<u8>>>) -> Seq<char> {
    hex_of(sha1_of(context_bytes(contents)))
}

/// The digest of the selected files, given their contents in the order of
/// the file list. An entry that is no regular file has no contents and adds
/// nothing.
pub fn compute_sha(contents: &Vec<Option<Vec<u8>>>) -> (sha: String)
    ensures
        sha@ == digest_of(byte_views(contents@)),
        sha@.len() == 40,
{
    let mut all: Vec<u8> = Vec::new();
    let ghost cv = byte_views(contents@);
    let mut i: usize = 0;
    while i < contents.len()
        invariant
            i <= contents.len(),
            cv == byte_views(contents@),
            all@ == context_bytes(cv.take(i as int)),
        decreases contents.len() - i,
    {
        assert(cv.take(i + 1).drop_last() == cv.take(i as int));
        assert(cv.take(i + 1).last() == cv[i as int]);
        match &contents[i] {
            Some(bytes) => {
                let mut k: usize = 0;
                let ghost before = all@;
                while k < bytes.len()
                    invariant
                        k <= bytes.len(),
                        all@ == before + bytes@.take(k as int),
                    decreases bytes.len() - k,
                {
                    all.push(bytes[k]);
                    k += 1;
                }
                assert(bytes@.take(bytes.len() as int) == bytes@);
            },
            None => {},
        }
        i += 1;
    }
    assert(cv.take(contents.len() as int) == cv);
    let digest = sha1_digest(&all);
    proof {
        lemma_hex_len(digest@);
    }
    to_hex(&digest)
}

/// The line end as a one-character string.
pub open spec fn newline() -> Seq<char> {
    seq!['\n']
}

/// The text of a fingerprint file: the digest on the first line, then the
/// selected files, one on each line.
pub open spec fn sha_file_text(sha: Seq<char>, files: Seq<Seq<char>>) -> Seq<char> {
    sha + newline() + join(files, newline())
}

/// The text to write into the fingerprint file.
pub fn write_sha_file(sha: &str, file_list: &Vec<String>) -> (output: String)
    ensures
        output@ == sha_file_text(sha@, views(file_list@)),
{
    let mut output = String::new();
    output.append(sha);
    push_char(&mut output, '\n');
    if file_list.len() > 0 {
        let listed = join_strings(file_list, "\n");
        proof {
            reveal_strlit("\n");
            assert("\n"@ =~= newline());
        }
        output.append(listed.as_str());
    } else {
        assert(views(file_list@) =~= Seq::<Seq<char>>::empty());
    }
    assert(output@ =~= sha@ + newline() + join(views(file_list@), newline()));
    output
}

/// The digest that a fingerprint file with the text `contents` holds: its
/// first line as it stands, if it has a line.
pub open spec fn stored_sha(contents: Seq<char>) -> Option<Seq<char>> {
    if lines_of(contents).len() == 0 {
        None
    } else {
        Some(lines_of(contents)[0])
    }
}

/// What is reported for a fingerprint file without a line.
pub open spec fn empty_sha_file_error(sha_file: Seq<char>) -> Seq<char> {
    "Error: sha file "@ + sha_file + " is empty"@
}

/// The digest that the fingerprint file at `sha_file` holds, given its text.
pub fn read_sha_file(sha_file: &str, contents: &str) -> (r: Result<String, ContextError>)
    ensures
        match r {
            Ok(sha) => stored_sha(contents@) == Some(sha@),
            Err(e) => stored_sha(contents@) is None && e@ == empty_sha_file_error(sha_file@),
        },
{
    let chars = chars_of(contents);
    let all = lines(&chars);
    assert(vec_views(all@).len() == all.len());
    if all.len() == 0 {
        let mut message = String::new();
        message.append("Error: sha file ");
        message.append(sha_file);
        message.append(" is empty");
        assert(message@ =~= empty_sha_file_error(sha_file@));
        return Err(ContextError::new(message.as_str()));
    }
    assert(vec_views(all@)[0] == all@[0]@);
    Ok(string_of(&all[0]))
}

/// When a file was last changed: seconds since the epoch and the
/// nanoseconds beyond them.
#[derive(Debug, Clone, Copy, PartialEq, Eq)]
pub struct Stamp {
    pub secs: i64,
    pub nanos: u32,
}

impl Stamp {
    /// Whether `self` is strictly later than `other`.
    pub open spec fn later_than(self, other: Stamp) -> bool {
        self.secs > other.secs || (self.secs == other.secs && self.nanos > other.nanos)
    }

    /// Whether `self` is strictly later than `other`.
    pub fn is_later_than(&self, other: &Stamp) -> (r: bool)
        ensures
            r == self.later_than(*other),
    {
        self.secs > other.secs || (self.secs == other.secs && self.nanos > other.nanos)
    }
}

/// The files that a fingerprint file with the text `contents` lists: its
/// lines after the first, as they stand.
pub open spec fn stored_files(contents: Seq<char>) -> Seq<Seq<char>> {
    lines_of(contents).skip(1)
}

/// Whether some listed file is newer than the fingerprint file, or could
/// not be examined. `mtimes` holds, for each file of the list in order, when
/// it was last changed, or nothing where that could not be told.
pub open spec fn some_file_newer(n: nat, sha_mtime: Stamp, mtimes: Seq<Option<Stamp>>) -> bool {
    exists|i: int|
        0 <= i < n && (i >= mtimes.len() || match #[trigger] mtimes[i] {
            Some(t) => t.later_than(sha_mtime),
            None => true,
        })
}

/// Whether the fingerprint file lists exactly the files now selected: it
/// is there, has a first line, and its other lines are the names of the
/// files, character for character and in order.
pub open spec fn list_is_current(stored: Option<Seq<char>>, files: Seq<Seq<char>>) -> bool {
    match stored {
        None => false,
        Some(contents) => lines_of(contents).len() > 0 && stored_files(contents) == files,
    }
}

/// Whether the fingerprint must be made anew: the fingerprint file is not
/// there or has no line, or lists other files than the ones now selected,
/// or one of the files is newer than it or cannot be examined.
pub open spec fn sha_file_dirty(
    stored: Option<Seq<char>>,
    files: Seq<Seq<char>>,
    sha_mtime: Stamp,
    mtimes: Seq<Option<Stamp>>,
) -> bool {
    !list_is_current(stored, files) || some_file_newer(files.len(), sha_mtime, mtimes)
}

/// The text of an optional string.
pub open spec fn opt_view(s: Option<String>) -> Option<Seq<char>> {
    match s {
        Some(text) => Some(text@),
        None => None,
    }
}

/// Whether the fingerprint file lists exactly the files now selected.
/// `stored` is the text of the fingerprint file if there is one. Only where
/// this holds do the times of change matter.
pub fn is_list_current(stored: &Option<String>, file_list: &Vec<String>) -> (current: bool)
    ensures
        current == list_is_current(opt_view(*stored), views(file_list@)),
{
    let contents = match stored {
        None => {
            return false;
        },
        Some(text) => text,
    };
    let chars = chars_of(contents.as_str());
    let all = lines(&chars);
    let ghost texts = vec_views(all@);
    let ghost files = views(file_list@);
    assert(texts.len() == all.len());
    assert(files.len() == file_list.len());
    if all.len() == 0 {
        return false;
    }
    if all.len() - 1 != file_list.len() {
        assert(stored_files(contents@).len() != files.len());
        return false;
    }
    let mut i: usize = 0;
    while i < file_list.len()
        invariant
            i <= file_list.len(),
            all.len() == file_list.len() + 1,
            opt_view(*stored) == Some(contents@),
            texts == vec_views(all@),
            texts == lines_of(contents@),
            files == views(file_list@),
            forall|k: int| 0 <= k < i ==> stored_files(contents@)[k] == #[trigger] files[k],
        decreases file_list.len() - i,
    {
        let name = chars_of(file_list[i].as_str());
        assert(texts[i + 1] == all@[i + 1]@);
        assert(files[i as int] == file_list@[i as int]@);
        if !same_chars(&all[i + 1], &name) {
            assert(stored_files(contents@)[i as int] != files[i as int]);
            return false;
        }
        i += 1;
    }
    assert(stored_files(contents@) =~= files);
    true
}

/// Whether the fingerprint must be made anew. `stored` is the text of the
/// fingerprint file if there is one, `sha_mtime` says when it was last
/// changed, and `mtimes` says the same of each file of `file_list`.
pub fn is_sha_file_dirty(
    stored: &Option<String>,
    file_list: &Vec<String>,
    sha_mtime: Stamp,
    mtimes: &Vec<Option<Stamp>>,
) -> (dirty: bool)
    ensures
        dirty == sha_file_dirty(opt_view(*stored), views(file_list@), sha_mtime, mtimes@),
{
    if !is_list_current(stored, file_list) {
        return true;
    }
    let ghost files = views(file_list@);
    assert(files.len() == file_list.len());
    let mut k: usize = 0;
    while k < file_list.len()
        invariant
            k <= file_list.len(),
            files.len() == file_list.len(),
            forall|j: int|
                0 <= j < k ==> j < mtimes.len() && (#[trigger] mtimes@[j] matches Some(t)
                    && !t.later_than(sha_mtime)),
        decreases file_list.len() - k,
    {
        if k >= mtimes.len() {
            assert(some_file_newer(files.len(), sha_mtime, mtimes@)) by {
                let w = k as int;
                assert(0 <= w < files.len() && w >= mtimes@.len());
            }
            return true;
        }
        match mtimes[k] {
            None => {
                assert(mtimes@[k as int] is None);
                return true;
            },
            Some(t) => {
                if t.is_later_than(&sha_mtime) {
                    assert(mtimes@[k as int] == Some(t));
                    return true;
                }
            },
        }
        k += 1;
    }
    false
}

/// The digest of a build context, given what is kept and what the files
/// hold: the kept digest while it can be used again, else a new one.
pub open spec fn context_digest(
    stored: Option<Seq<char>>,
    files: Seq<Seq<char>>,
    sha_mtime: Stamp,
    mtimes: Seq<Option<Stamp>>,
    contents: Seq<Option<Seq<u8>>>,
) -> Seq<char> {
    if sha_file_dirty(stored, files, sha_mtime, mtimes) {
        digest_of(contents)
    } else {
        lines_of(stored->0)[0]
    }
}

/// The fingerprint of a build context. `files` is the list of selected
/// files; `stored`, `sha_mtime` and `mtimes` are as for `is_sha_file_dirty`;
/// `contents` holds the bytes of the selected files and is read only where
/// the fingerprint must be made anew.
pub fn build_context_sha(
    root_dir: &str,
    sha_file: &str,
    mode: ContextMode,
    files: Vec<String>,
    stored: &Option<String>,
    sha_mtime: Stamp,
    mtimes: &Vec<Option<Stamp>>,
    contents: &Vec<Option<Vec<u8>>>,
) -> (context: ContextSha)
    ensures
        context.sha@ == context_digest(
            opt_view(*stored),
            views(files@),
            sha_mtime,
            mtimes@,
            byte_views(contents@),
        ),
        context.files == files,
        context.sha_file@ == abs_path_of(sha_file@, root_dir@),
        context.mode == mode,
{
    let sha_file = abs_path(sha_file, root_dir);
    let dirty = is_sha_file_dirty(stored, &files, sha_mtime, mtimes);
    let sha = if dirty {
        compute_sha(contents)
    } else {
        match stored {
            Some(text) => match read_sha_file(sha_file.as_str(), text.as_str()) {
                Ok(sha) => sha,
                Err(_) => String::new(),
            },
            None => String::new(),
        }
    };
    ContextSha { sha, files, sha_file, mode }
}

/// Two runs over the same files with the same contents, starting from the
/// same fingerprint file, give the same digest.
pub proof fn lemma_digest_deterministic(
    stored: Option<Seq<char>>,
    files: Seq<Seq<char>>,
    sha_mtime: Stamp,
    mtimes: Seq<Option<Stamp>>,
    first: Seq<Option<Seq<u8>>>,
    second: Seq<Option<Seq<u8>>>,
)
    requires
        first == second,
    ensures
        context_digest(stored, files, sha_mtime, mtimes, first) == context_digest(
            stored,
            files,
            sha_mtime,
            mtimes,
            second,
        ),
        digest_of(first) == digest_of(second),
{
}

/// While the kept fingerprint can be used again, the digest is the kept one
/// whatever the files hold: it goes by the times of change, not by content.
pub proof fn lemma_clean_cache_ignores_content(
    stored: Option<Seq<char>>,
    files: Seq<Seq<char>>,
    sha_mtime: Stamp,
    mtimes: Seq<Option<Stamp>>,
    first: Seq<Option<Seq<u8>>>,
    second: Seq<Option<Seq<u8>>>,
)
    requires
        !sha_file_dirty(stored, files, sha_mtime, mtimes),
    ensures
        context_digest(stored, files, sha_mtime, mtimes, first) == context_digest(
            stored,
            files,
            sha_mtime,
            mtimes,
            second,
        ),
        stored_sha(stored->0) == Some(context_digest(stored, files, sha_mtime, mtimes, first)),
{
}

/// Whether a digest comes back from a fingerprint file as it was written:
/// it holds no line feed, and no carriage return at its end, which the line
/// feed after it would take along.
pub open spec fn keeps_on_a_line(s: Seq<char>) -> bool {
    &&& forall|i: int| 0 <= i < s.len() ==> s[i] != '\n'
    &&& s.len() > 0 ==> s.last() != '\r'
}

/// The lines of a text that starts with a line `a` and a line break.
proof fn lemma_lines_after_first(a: Seq<char>, rest: Seq<char>)
    requires
        forall|i: int| 0 <= i < a.len() ==> a[i] != '\n',
    ensures
        lines_of(a + newline() + rest) == seq![crate::text::strip_cr(a)] + lines_of(rest),
{
    let s = a + newline() + rest;
    assert forall|k: int| 0 <= k < a.len() implies s[k] != '\n' by {
        assert(s[k] == a[k]);
    }
    assert(s[a.len() as int] == '\n');
    crate::text::lemma_first_index_is(s, '\n', a.len() as int);
    assert(s.take(a.len() as int) == a);
    assert(s.skip(a.len() as int + 1) == rest);
}

/// Whether a text holds no line feed.
pub open spec fn no_line_feed(s: Seq<char>) -> bool {
    forall|i: int| 0 <= i < s.len() ==> s[i] != '\n'
}

/// Whether a list of names comes back from a fingerprint file as it was
/// written: no name holds a line feed; no name but the last ends with a
/// carriage return, which the line feed after it would take along; and the
/// last name is not empty, as an empty last line is no line.
pub open spec fn names_keep(files: Seq<Seq<char>>) -> bool {
    &&& forall|i: int| 0 <= i < files.len() ==> no_line_feed(#[trigger] files[i])
    &&& forall|i: int|
        0 <= i < files.len() - 1 ==> (#[trigger] files[i]).len() == 0 || files[i].last() != '\r'
    &&& files.len() > 0 ==> files.last().len() > 0
}

/// The lines of a list of names written one on each line.
proof fn lemma_lines_of_list(files: Seq<Seq<char>>)
    requires
        names_keep(files),
    ensures
        lines_of(join(files, newline())) == files,
    decreases files.len(),
{
    if files.len() == 0 {
        assert(lines_of(join(files, newline())) =~= files);
    } else if files.len() == 1 {
        let f = files[0];
        assert(no_line_feed(f));
        crate::text::lemma_first_index(f, '\n');
        assert(lines_of(f) =~= seq![f]);
        assert(files =~= seq![f]);
    } else {
        let f = files[0];
        let rest = files.drop_first();
        assert(no_line_feed(f));
        crate::text::lemma_join_first(files, newline());
        assert forall|i: int| 0 <= i < rest.len() implies no_line_feed(#[trigger] rest[i]) by {
            assert(rest[i] == files[i + 1]);
        }
        assert forall|i: int| 0 <= i < rest.len() - 1 implies (#[trigger] rest[i]).len() == 0
            || rest[i].last() != '\r' by {
            assert(rest[i] == files[i + 1]);
        }
        assert(rest.last() == files.last());
        lemma_lines_of_list(rest);
        lemma_lines_after_first(f, join(rest, newline()));
        assert(crate::text::strip_cr(f) == f);
        assert(files =~= seq![f] + rest);
    }
}

/// A fingerprint file is read back as it was written: its text gives the
/// digest again, and lists the files that it was written for, so that only
/// newer files make the fingerprint stale. White space in a name or around
/// it does no harm; only line ends do.
pub proof fn lemma_written_file_is_current(sha: Seq<char>, files: Seq<Seq<char>>)
    requires
        keeps_on_a_line(sha),
        names_keep(files),
    ensures
        stored_sha(sha_file_text(sha, files)) == Some(sha),
        list_is_current(Some(sha_file_text(sha, files)), files),
{
    let text = sha_file_text(sha, files);
    let listed = join(files, newline());
    lemma_lines_of_list(files);
    lemma_lines_after_first(sha, listed);
    let all = lines_of(text);
    assert(all == seq![crate::text::strip_cr(sha)] + files);
    assert(crate::text::strip_cr(sha) == sha);
    assert(all[0] == sha);
    assert(stored_files(text) =~= files);
}

/// A digest in hexadecimal comes back from a fingerprint file as it was
/// written.
pub proof fn lemma_hex_keeps_on_a_line(data: Seq<u8>)
    ensures
        keeps_on_a_line(hex_of(data)),
        forall|i: int|
            0 <= i < hex_of(data).len() ==> (#[trigger] hex_of(data)[i]) != '\n' && hex_of(data)[i]
                != '\r',
    decreases data.len(),
{
    if data.len() > 0 {
        lemma_hex_keeps_on_a_line(data.drop_last());
        let h = hex_of(data);
        let before = hex_of(data.drop_last());
        assert forall|i: int| 0 <= i < h.len() implies (#[trigger] h[i]) != '\n' && h[i]
            != '\r' by {
            if i < before.len() {
                assert(h[i] == before[i]);
            }
        }
    }
}

} // verus!
