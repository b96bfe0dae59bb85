//! The extraction stage: which partitions a server has, where each key's value
//! goes, and which keys are written.

use vstd::prelude::*;
use crate::endpoint::Endpoint;
use crate::text::{split_on, split_pieces, lemma_split_on_nonempty, parsed_u8, parse_u8, decimal_text, decimal};

verus! {

/// A line without the carriage return that ends it, if any.
pub open spec fn strip_cr(l: Seq<char>) -> Seq<char> {
    if l.len() > 0 && l.last() == '\r' {
        l.drop_last()
    } else {
        l
    }
}

/// The lines of a reply.
pub open spec fn reply_lines(s: Seq<char>) -> Seq<Seq<char>> {
    split_on(s, '\n').map_values(|l: Seq<char>| strip_cr(l))
}

/// Lines that summarise a partition start with `db`.
pub open spec fn is_partition_line(l: Seq<char>) -> bool {
    l.len() >= 2 && l[0] == 'd' && l[1] == 'b'
}

/// The number of the partition that a summary line such as `db3:keys=1` names:
/// the text before the first `:`, less its two-letter prefix.
pub open spec fn partition_id(l: Seq<char>) -> Option<u8> {
    let name = split_on(l, ':')[0];
    parsed_u8(name.subrange(2, name.len() as int))
}

/// The partitions that the summary lines among `lines` name, in order, or
/// `None` where one of them is malformed.
pub open spec fn partition_ids(lines: Seq<Seq<char>>) -> Option<Seq<u8>>
    decreases lines.len(),
{
    if lines.len() == 0 {
        Some(Seq::<u8>::empty())
    } else {
        let rest = partition_ids(lines.drop_last());
        if is_partition_line(lines.last()) {
            match (rest, partition_id(lines.last())) {
                (Some(ids), Some(id)) => Some(ids.push(id)),
                _ => None,
            }
        } else {
            rest
        }
    }
}

/// What the keyspace summary of a server shows.
#[derive(Clone, Debug, PartialEq, Eq)]
pub enum KeyspaceScan {
    /// The server gave no summary: the server is skipped.
    Empty,
    /// The partitions that hold keys.
    Partitions(Vec<u8>),
    /// A summary line names no partition number: the server is given up.
    Malformed,
}

/// The first piece of a split is `s` itself where there is one piece, and
/// otherwise a proper prefix of `s` that the separator follows.
proof fn lemma_first_piece(s: Seq<char>, sep: char)
    ensures
        split_on(s, sep).len() >= 1,
        split_on(s, sep)[0].len() <= s.len(),
        split_on(s, sep)[0] =~= s.subrange(0, split_on(s, sep)[0].len() as int),
        split_on(s, sep).len() == 1 ==> split_on(s, sep)[0] =~= s,
        split_on(s, sep).len() > 1 ==> split_on(s, sep)[0].len() < s.len() && s[split_on(s, sep)[0].len() as int] == sep,
    decreases s.len(),
{
    lemma_split_on_nonempty(s, sep);
    if s.len() > 0 {
        let s0 = s.drop_last();
        lemma_first_piece(s0, sep);
        let rest = split_on(s0, sep);
        let k = rest[0].len() as int;
        assert(s0.subrange(0, k) =~= s.subrange(0, k));
        if s.last() == sep {
            assert(split_on(s, sep)[0] == rest[0]);
        } else if rest.len() == 1 {
            assert(split_on(s, sep)[0] == rest[0].push(s.last()));
            assert(rest[0].push(s.last()) =~= s);
        } else {
            assert(split_on(s, sep)[0] == rest[0]);
            assert(s0[k] == s[k]);
        }
    }
}

/// Once a prefix of the lines holds a malformed summary, so do all the lines.
proof fn lemma_malformed_stays(lines: Seq<Seq<char>>, k: int)
    requires
        0 <= k <= lines.len(),
        partition_ids(lines.subrange(0, k)) is None,
    ensures
        partition_ids(lines) is None,
    decreases lines.len() - k,
{
    if k < lines.len() {
        let next = lines.subrange(0, k + 1);
        assert(next.drop_last() =~= lines.subrange(0, k));
        lemma_malformed_stays(lines, k + 1);
    } else {
        assert(lines.subrange(0, k) =~= lines);
    }
}

/// The partition number of one summary line.
fn line_partition(line: &str) -> (r: Option<u8>)
    requires
        is_partition_line(line@),
    ensures
        r == partition_id(line@),
{
    let parts = split_pieces(line, ':');
    proof {
        lemma_first_piece(line@, ':');
    }
    assert(parts@.map_values(|p: String| p@)[0] == parts@[0]@);
    let name = &parts[0];
    let n = name.unicode_len();
    if n < 2 {
        assert(false) by {
            let first = split_on(line@, ':')[0];
            assert(first.len() == n);
            if split_on(line@, ':').len() == 1 {
                assert(first.len() == line@.len());
            } else {
                assert(line@[first.len() as int] == ':');
            }
        }
        return None;
    }
    let digits = name.as_str().substring_char(2, n);
    parse_u8(digits)
}

/// Reads the keyspace summary of a server.
pub fn scan_keyspace(reply: &str) -> (r: KeyspaceScan)
    ensures
        reply@.len() == 0 ==> r == KeyspaceScan::Empty,
        reply@.len() > 0 ==> match partition_ids(reply_lines(reply@)) {
            Some(ids) => (r matches KeyspaceScan::Partitions(v) && v@ == ids),
            None => r == KeyspaceScan::Malformed,
        },
{
    if reply.unicode_len() == 0 {
        return KeyspaceScan::Empty;
    }
    let pieces = split_pieces(reply, '\n');
    let ghost lines = reply_lines(reply@);
    let mut ids: Vec<u8> = Vec::new();
    let mut i: usize = 0;
    while i < pieces.len()
        invariant
            pieces@.map_values(|p: String| p@) == split_on(reply@, '\n'),
            lines == reply_lines(reply@),
            lines.len() == pieces@.len(),
            i <= pieces@.len(),
            partition_ids(lines.subrange(0, i as int)) == Some(ids@),
        decreases pieces.len() - i,
    {
        let piece = &pieces[i];
        assert(split_on(reply@, '\n')[i as int] == piece@);
        let ghost l = strip_cr(piece@);
        assert(lines[i as int] == l);
        assert(lines.subrange(0, i as int + 1).drop_last() =~= lines.subrange(0, i as int));
        assert(lines.subrange(0, i as int + 1).last() == l);
        let n = piece.unicode_len();
        let line = if n > 0 && piece.as_str().get_char(n - 1) == '\r' {
            piece.as_str().substring_char(0, n - 1)
        } else {
            piece.as_str()
        };
        assert(line@ =~= l);
        if line.unicode_len() >= 2 && line.get_char(0) == 'd' && line.get_char(1) == 'b' {
            match line_partition(line) {
                Some(id) => ids.push(id),
                None => {
                    proof {
                        lemma_malformed_stays(lines, i as int + 1);
                    }
                    return KeyspaceScan::Malformed;
                },
            }
        }
        i = i + 1;
    }
    assert(lines.subrange(0, i as int) =~= lines);
    KeyspaceScan::Partitions(ids)
}

/// The directory for one partition of one server: `root/addr/partition`.
pub open spec fn partition_dir_of(root: Seq<char>, addr: Seq<char>, partition: u8) -> Seq<char> {
    root + "/"@ + addr + "/"@ + decimal_text(partition as nat)
}

/// Where the values of a partition of `e` are written under `root`.
pub fn partition_dir(root: &str, e: &Endpoint, partition: u8) -> (r: String)
    ensures
        r@ == partition_dir_of(root@, e@, partition),
{
    let mut dir = String::from_str(root);
    dir.append("/");
    dir.append(e.addr.as_str());
    dir.append("/");
    let number = decimal(partition as u64);
    dir.append(number.as_str());
    dir
}

/// What a character-safe file name for `s` is: the result of `filenamify`.
pub uninterp spec fn sanitized(s: Seq<char>) -> Seq<char>;

/// Relies on filenamify::filenamify: a file name made from `s` alone, with the
/// characters that file systems refuse replaced; `/` is among them.
#[verifier::external_body]
fn safe_file_name(s: &str) -> (r: String)
    ensures
        r@ == sanitized(s@),
        forall|i: int| 0 <= i < r@.len() ==> r@[i] != '/',
{
    filenamify::filenamify(s)
}

/// Keys longer than this are cut to it before they name a file.
pub const KEY_PREFIX_LEN: usize = 64;

/// The part of a key that names its file: at most its first characters.
pub open spec fn key_prefix(key: Seq<char>) -> Seq<char> {
    if key.len() <= KEY_PREFIX_LEN {
        key
    } else {
        key.subrange(0, KEY_PREFIX_LEN as int)
    }
}

/// The path of the file in `dir` whose name, without extension, is `safe_name`.
pub fn file_in(dir: &str, safe_name: &str) -> (r: String)
    ensures
        r@ == dir@ + "/"@ + safe_name@ + ".txt"@,
{
    let mut path = String::from_str(dir);
    path.append("/");
    path.append(safe_name);
    path.append(".txt");
    path
}

/// The path of the file in `dir` that receives the value of `key`.
pub fn key_file(dir: &str, key: &str) -> (r: String)
    ensures
        r@ == dir@ + "/"@ + sanitized(key_prefix(key@)) + ".txt"@,
        forall|i: int|
            0 <= i < sanitized(key_prefix(key@)).len() ==> #[trigger] sanitized(key_prefix(key@))[i] != '/',
{
    let n = key.unicode_len();
    let cut = if n <= KEY_PREFIX_LEN {
        n
    } else {
        KEY_PREFIX_LEN
    };
    let prefix = key.substring_char(0, cut);
    assert(prefix@ =~= key_prefix(key@));
    let safe = safe_file_name(prefix);
    file_in(dir, safe.as_str())
}

/// What is done with a key, by the type that the server reports for it.
#[derive(Clone, Copy, Debug, PartialEq, Eq, Structural)]
pub enum KeyAction {
    /// The key is gone since it was listed: nothing to do.
    Vanished,
    /// A string value: fetch it and write it.
    Fetch,
    /// Another type: not exported.
    Unhandled,
}

/// The action for a key of type `tag`.
pub fn classify_type(tag: &String) -> (r: KeyAction)
    ensures
        r == if tag@ == "none"@ {
            KeyAction::Vanished
        } else if tag@ == "string"@ {
            KeyAction::Fetch
        } else {
            KeyAction::Unhandled
        },
{
    let none = String::from_str("none");
    let string = String::from_str("string");
    if *tag == none {
        KeyAction::Vanished
    } else if *tag == string {
        KeyAction::Fetch
    } else {
        KeyAction::Unhandled
    }
}

/// The text to write for a fetched key: the first value of the reply, exactly
/// as it came, or nothing where the reply holds none.
pub fn value_to_write(reply: &Vec<String>) -> (r: Option<String>)
    ensures
        reply@.len() == 0 ==> r is None,
        reply@.len() > 0 ==> (r matches Some(v) && v@ == reply@[0]@),
{
    if reply.len() == 0 {
        None
    } else {
        Some(reply[0].clone())
    }
}

/// A file to create or truncate, and the exact text it receives.
#[derive(Clone, Debug)]
pub struct FileWrite {
    pub path: String,
    pub contents: String,
}

/// The file that a fetched string key becomes: its path in `dir`, and the
/// first value of the reply, or nothing where the reply holds none.
pub open spec fn written(dir: Seq<char>, key: Seq<char>, reply: Seq<Seq<char>>) -> Option<(Seq<char>, Seq<char>)> {
    if reply.len() == 0 {
        None
    } else {
        Some((dir + "/"@ + sanitized(key_prefix(key)) + ".txt"@, reply[0]))
    }
}

/// What a fetch of `key` in the partition directory `dir` leads to writing.
pub fn write_for(dir: &str, key: &str, reply: &Vec<String>) -> (r: Option<FileWrite>)
    ensures
        r is None <==> written(dir@, key@, reply@.map_values(|v: String| v@)) is None,
        r is Some ==> written(dir@, key@, reply@.map_values(|v: String| v@)) == Some(
            (r->0.path@, r->0.contents@),
        ),
{
    match value_to_write(reply) {
        Some(contents) => {
            let path = key_file(dir, key);
            Some(FileWrite { path, contents })
        },
        None => None,
    }
}

/// A written file holds exactly the value that was fetched, and fetching the
/// same value again writes the same text to the same file.
pub proof fn lemma_write_is_verbatim(dir: Seq<char>, key: Seq<char>, first: Seq<Seq<char>>, again: Seq<Seq<char>>)
    requires
        first.len() > 0,
        again.len() > 0,
        first[0] == again[0],
    ensures
        written(dir, key, first) is Some,
        written(dir, key, first).unwrap().1 == first[0],
        written(dir, key, first) == written(dir, key, again),
{
}

} // verus!
