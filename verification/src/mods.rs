//! Mod-archive metadata: the fields read out of a mod's manifest text and
//! the digest that names its file. Opening the archive and reading the
//! file are the caller's business; the parsing and the digest text are
//! verified here.

use vstd::prelude::*;

use crate::errors::BackendError;

verus! {

use vstd::string::{StrSliceExecFns, StringExecFns};

/// What one mod archive advertises.
#[derive(Debug)]
pub struct ModMetadata {
    pub name: String,
    pub version: String,
    pub filename: String,
    pub authors: String,
    pub sha256: String,
}

// ---------------------------------------------------------------------------
// Digest text
// ---------------------------------------------------------------------------

/// The digest the outside hash computes over a byte string; it depends on
/// the bytes alone.
pub uninterp spec fn sha256_of(data: Seq<u8>) -> Seq<u8>;

/// Relies on `sha2::Sha256::digest`: the digest depends on the bytes
/// alone and is thirty-two bytes long.
#[verifier::external_body]
fn sha256_digest(data: &[u8]) -> (r: Vec<u8>)
    ensures
        r@ == sha256_of(data@),
        r@.len() == 32,
{
    <sha2::Sha256 as sha2::Digest>::digest(data).to_vec()
}

/// The lower-case hex digit for a value under sixteen.
pub open spec fn hex_digit(d: int) -> char
    recommends
        0 <= d < 16,
{
    if d < 10 {
        ((48 + d) as u8) as char
    } else {
        ((87 + d) as u8) as char
    }
}

/// The lower-case hex rendering of a byte string, two digits per byte.
pub open spec fn hex_of(data: Seq<u8>) -> Seq<char>
    decreases data.len(),
{
    if data.len() == 0 {
        Seq::<char>::empty()
    } else {
        hex_of(data.drop_last()) + seq![
            hex_digit(data.last() as int / 16),
            hex_digit(data.last() as int % 16),
        ]
    }
}

fn hex_digit_str(d: u8) -> (r: &'static str)
    requires
        d < 16,
    ensures
        r@ =~= seq![hex_digit(d as int)],
{
    proof {
        reveal_strlit("0");
        reveal_strlit("1");
        reveal_strlit("2");
        reveal_strlit("3");
        reveal_strlit("4");
        reveal_strlit("5");
        reveal_strlit("6");
        reveal_strlit("7");
        reveal_strlit("8");
        reveal_strlit("9");
        reveal_strlit("a");
        reveal_strlit("b");
        reveal_strlit("c");
        reveal_strlit("d");
        reveal_strlit("e");
        reveal_strlit("f");
    }
    match d {
        0 => "0",
        1 => "1",
        2 => "2",
        3 => "3",
        4 => "4",
        5 => "5",
        6 => "6",
        7 => "7",
        8 => "8",
        9 => "9",
        10 => "a",
        11 => "b",
        12 => "c",
        13 => "d",
        14 => "e",
        _ => "f",
    }
}

/// Renders a byte string in lower-case hex.
pub fn bytes_to_hex(data: &[u8]) -> (s: String)
    ensures
        s@ == hex_of(data@),
{
    let mut s = String::new();
    let mut i: usize = 0;
    while i < data.len()
        invariant
            i <= data@.len(),
            s@ == hex_of(data@.subrange(0, i as int)),
        decreases data@.len() - i,
    {
        let b = data[i];
        s.append(hex_digit_str(b / 16));
        s.append(hex_digit_str(b % 16));
        i += 1;
        proof {
            let pre = data@.subrange(0, i - 1);
            let cur = data@.subrange(0, i as int);
            assert(cur.drop_last() =~= pre);
            assert(cur.last() == data@[i - 1]);
            assert(s@ =~= hex_of(cur));
        }
    }
    proof {
        assert(data@.subrange(0, data@.len() as int) =~= data@);
    }
    s
}

/// The hex text of a byte string's digest, as served to launchers.
pub fn digest_hex(data: &[u8]) -> (s: String)
    ensures
        s@ == hex_of(sha256_of(data@)),
{
    let d = sha256_digest(data);
    bytes_to_hex(d.as_slice())
}

// ---------------------------------------------------------------------------
// Manifest text
// ---------------------------------------------------------------------------

/// The first position of `c` in `s` at or after `from`; the length when
/// there is none.
pub open spec fn spec_find_char(s: Seq<char>, c: char, from: int) -> int
    decreases s.len() - from,
    when 0 <= from <= s.len()
{
    if from >= s.len() {
        s.len() as int
    } else if s[from] == c {
        from
    } else {
        spec_find_char(s, c, from + 1)
    }
}

fn find_char(s: &str, c: char, from: usize) -> (r: usize)
    requires
        from <= s@.len(),
    ensures
        r as int == spec_find_char(s@, c, from as int),
        from <= r <= s@.len(),
    decreases s@.len() - from,
{
    let n = s.unicode_len();
    if from >= n {
        return n;
    }
    if s.get_char(from) == c {
        return from;
    }
    find_char(s, c, from + 1)
}

/// What a quoted manifest entry holds: the text between the first quote
/// and the closing end of the line, if the line is shaped that way.
pub open spec fn spec_toml_entry(line: Seq<char>) -> Option<Seq<char>> {
    let q = spec_find_char(line, '"', 0);
    if q + 1 <= line.len() - 1 {
        Some(line.subrange(q + 1, line.len() - 1))
    } else {
        None
    }
}

/// Reads the quoted value out of one manifest line.
pub fn extract_toml_entry(line: &str) -> (r: Result<String, BackendError>)
    ensures
        match r {
            Ok(s) => spec_toml_entry(line@) == Some(s@),
            Err(_) => spec_toml_entry(line@) is None,
        },
{
    let n = line.unicode_len();
    let q = find_char(line, '"', 0);
    if n < 2 || q > n - 2 {
        return Err(BackendError::new("malformed manifest line", 400));
    }
    let piece = line.substring_char(q + 1, n - 1);
    Ok(piece.to_owned())
}

/// Where a pass over the manifest lines stands.
#[verifier::ext_equal]
pub ghost struct ScanState {
    pub in_section: bool,
    pub done: bool,
    pub name: Option<Seq<char>>,
    pub version: Option<Seq<char>>,
    pub authors: Option<Seq<char>>,
}

/// The pass before any line is read.
pub open spec fn scan_init() -> ScanState {
    ScanState { in_section: false, done: false, name: None, version: None, authors: None }
}

/// One manifest line applied to the pass; nothing when a field line is
/// malformed.
pub open spec fn scan_step(st: ScanState, line: Seq<char>) -> Option<ScanState> {
    if st.done {
        Some(st)
    } else if line == "[[mods]]"@ {
        Some(ScanState { in_section: true, ..st })
    } else if line.len() > 0 && line[0] == '[' {
        Some(ScanState { done: true, ..st })
    } else if st.in_section && "modId"@.is_prefix_of(line) {
        match spec_toml_entry(line) {
            Some(v) => Some(ScanState { name: Some(v), ..st }),
            None => None,
        }
    } else if st.in_section && "version"@.is_prefix_of(line) {
        match spec_toml_entry(line) {
            Some(v) => Some(ScanState { version: Some(v), ..st }),
            None => None,
        }
    } else if st.in_section && "authors"@.is_prefix_of(line) {
        match spec_toml_entry(line) {
            Some(v) => Some(ScanState { authors: Some(v), ..st }),
            None => None,
        }
    } else {
        Some(st)
    }
}

/// The pass carried over the lines from `i` on.
pub open spec fn scan_from(st: ScanState, lines: Seq<Seq<char>>, i: int) -> Option<ScanState>
    decreases lines.len() - i,
    when 0 <= i <= lines.len()
{
    if i == lines.len() {
        Some(st)
    } else {
        match scan_step(st, lines[i]) {
            None => None,
            Some(st2) => scan_from(st2, lines, i + 1),
        }
    }
}

/// Once a pass has stopped, the remaining lines change nothing.
proof fn lemma_scan_done(st: ScanState, lines: Seq<Seq<char>>, i: int)
    requires
        st.done,
        0 <= i <= lines.len(),
    ensures
        scan_from(st, lines, i) == Some(st),
    decreases lines.len() - i,
{
    if i < lines.len() {
        lemma_scan_done(st, lines, i + 1);
    }
}

impl ModMetadata {
    /// Reads the advertised fields out of the `[[mods]]` section of a
    /// manifest, already split into lines; the file name and digest text
    /// come from the caller, who holds the archive.
    pub fn from_manifest(lines: &Vec<String>, filename: &str, sha256_hex: &str) -> (r: Result<
        ModMetadata,
        BackendError,
    >)
        ensures
            match r {
                Ok(md) => {
                    &&& scan_from(scan_init(), lines@.map_values(|l: String| l@), 0)
                        matches Some(st)
                    &&& st.name == Some(md.name@)
                    &&& st.version == Some(md.version@)
                    &&& st.authors == Some(md.authors@)
                    &&& md.filename@ == filename@
                    &&& md.sha256@ == sha256_hex@
                },
                Err(_) => match scan_from(scan_init(), lines@.map_values(|l: String| l@), 0) {
                    None => true,
                    Some(st) => st.name is None || st.version is None || st.authors is None,
                },
            },
    {
        let ghost views = lines@.map_values(|l: String| l@);
        let mut in_section = false;
        let mut done = false;
        let mut name: Option<String> = None;
        let mut version: Option<String> = None;
        let mut authors: Option<String> = None;
        let mut i: usize = 0;
        while i < lines.len() && !done
            invariant
                0 <= i <= lines@.len(),
                views == lines@.map_values(|l: String| l@),
                scan_from(scan_init(), views, 0) == scan_from(
                    ScanState {
                        in_section,
                        done,
                        name: match name {
                            Some(ref s) => Some(s@),
                            None => None,
                        },
                        version: match version {
                            Some(ref s) => Some(s@),
                            None => None,
                        },
                        authors: match authors {
                            Some(ref s) => Some(s@),
                            None => None,
                        },
                    },
                    views,
                    i as int,
                ),
            decreases lines@.len() - i,
        {
            let line = &lines[i];
            if crate::routing::str_eq(line.as_str(), "[[mods]]") {
                in_section = true;
            } else if line.as_str().unicode_len() > 0 && line.as_str().get_char(0) == '[' {
                done = true;
            } else if in_section && starts_with_chars(line.as_str(), "modId") {
                match extract_toml_entry(line.as_str()) {
                    Ok(v) => {
                        name = Some(v);
                    },
                    Err(e) => {
                        return Err(e);
                    },
                }
            } else if in_section && starts_with_chars(line.as_str(), "version") {
                match extract_toml_entry(line.as_str()) {
                    Ok(v) => {
                        version = Some(v);
                    },
                    Err(e) => {
                        return Err(e);
                    },
                }
            } else if in_section && starts_with_chars(line.as_str(), "authors") {
                match extract_toml_entry(line.as_str()) {
                    Ok(v) => {
                        authors = Some(v);
                    },
                    Err(e) => {
                        return Err(e);
                    },
                }
            }
            i += 1;
        }
        proof {
            if done {
                lemma_scan_done(
                    ScanState {
                        in_section,
                        done,
                        name: match name {
                            Some(ref s) => Some(s@),
                            None => None,
                        },
                        version: match version {
                            Some(ref s) => Some(s@),
                            None => None,
                        },
                        authors: match authors {
                            Some(ref s) => Some(s@),
                            None => None,
                        },
                    },
                    views,
                    i as int,
                );
            }
        }
        let name = match name {
            Some(v) => v,
            None => {
                return Err(BackendError::new("incomplete mod metadata", 400));
            },
        };
        let version = match version {
            Some(v) => v,
            None => {
                return Err(BackendError::new("incomplete mod metadata", 400));
            },
        };
        let authors = match authors {
            Some(v) => v,
            None => {
                return Err(BackendError::new("incomplete mod metadata", 400));
            },
        };
        Ok(
            ModMetadata {
                name,
                version,
                filename: filename.to_owned(),
                authors,
                sha256: sha256_hex.to_owned(),
            },
        )
    }
}

/// Whether a line starts with the given prefix.
fn starts_with_chars(line: &str, prefix: &str) -> (r: bool)
    ensures
        r == prefix@.is_prefix_of(line@),
{
    let n = line.unicode_len();
    let p = prefix.unicode_len();
    if p > n {
        proof {
            assert(!prefix@.is_prefix_of(line@));
        }
        return false;
    }
    let head = line.substring_char(0, p);
    let r = crate::routing::str_eq(head, prefix);
    proof {
        assert(line@.subrange(0, p as int) =~= line@.take(p as int));
        if head@ == prefix@ {
            assert(prefix@.is_prefix_of(line@));
        } else {
            assert(!prefix@.is_prefix_of(line@));
        }
    }
    r
}

} // verus!
