//! Read-only, random-access view over the export archive: a list of named
//! byte entries loaded once from a zip container. Entry lookup, text
//! decoding and record-text cleaning are verified; only the zip calls and
//! the UTF-8 decoder are trusted.
use vstd::prelude::*;
use vstd::string::StrSliceExecFns;
use vstd::utf8::{decode_utf8, valid_utf8};
use crate::text::{chars_of, is_space, space_char};

verus! {

#[verifier::external_type_specification]
#[verifier::external_body]
#[verifier::reject_recursive_types(T)]
pub struct ExCursor<T>(std::io::Cursor<T>);

#[verifier::external_type_specification]
#[verifier::external_body]
#[verifier::reject_recursive_types(R)]
pub struct ExZipArchive<R>(zip::read::ZipArchive<R>);

/// The member table of an opened container: each member's name, and its
/// decompressed bytes where the member can be read.
pub uninterp spec fn zip_contents(a: zip::read::ZipArchive<std::io::Cursor<Vec<u8>>>) -> Seq<
    (Seq<char>, Option<Seq<u8>>),
>;

/// What opening a byte buffer as a zip container yields: its member
/// table, or nothing for a buffer that is no container. A function of
/// the bytes alone.
pub uninterp spec fn zip_entries_of(b: Seq<u8>) -> Option<Seq<(Seq<char>, Option<Seq<u8>>)>>;

/// Relies on zip::ZipArchive::new over std::io::Cursor: opens a zip
/// container held in memory; errs exactly on a buffer that is no
/// container, with the message as text.
#[verifier::external_body]
fn zip_open(data: Vec<u8>) -> (r: Result<zip::read::ZipArchive<std::io::Cursor<Vec<u8>>>, String>)
    ensures
        r matches Ok(a) ==> zip_entries_of(data@) == Some(zip_contents(a)),
        r is Err ==> zip_entries_of(data@) is None,
{
    match zip::read::ZipArchive::new(std::io::Cursor::new(data)) {
        Ok(archive) => Ok(archive),
        Err(e) => Err(e.to_string()),
    }
}

/// Relies on zip::ZipArchive::len: the number of members in the
/// container.
#[verifier::external_body]
fn zip_len(archive: &zip::read::ZipArchive<std::io::Cursor<Vec<u8>>>) -> (r: usize)
    ensures
        r == zip_contents(*archive).len(),
{
    archive.len()
}

/// Relies on zip::ZipArchive::by_index, zip::read::ZipFile::name and
/// std::io::Read::read_to_end: the name and the decompressed bytes of
/// one member; `None` for a member that cannot be read or an index out
/// of range. Reading leaves the member table unchanged.
#[verifier::external_body]
fn zip_entry(archive: &mut zip::read::ZipArchive<std::io::Cursor<Vec<u8>>>, index: usize) -> (r:
    Option<(String, Vec<u8>)>)
    ensures
        zip_contents(*final(archive)) == zip_contents(*old(archive)),
        index < zip_contents(*old(archive)).len() ==> (match zip_contents(*old(archive))[index as int] {
            (n, Some(d)) => r matches Some(e) && e.0@ == n && e.1@ == d,
            (n, None) => r is None,
        }),
        index >= zip_contents(*old(archive)).len() ==> r is None,
{
    let mut file = match archive.by_index(index) {
        Ok(f) => f,
        Err(_) => return None,
    };
    let name = file.name().to_string();
    let mut data = Vec::new();
    match std::io::Read::read_to_end(&mut file, &mut data) {
        Ok(_) => Some((name, data)),
        Err(_) => None,
    }
}

/// Relies on String::from_utf8: `Some` exactly on valid UTF-8 input, and
/// then carries the decoded characters.
#[verifier::external_body]
fn bytes_to_string(data: Vec<u8>) -> (r: Option<String>)
    ensures
        r matches Some(s) ==> valid_utf8(data@) && s@ == decode_utf8(data@),
        r is None ==> !valid_utf8(data@),
{
    String::from_utf8(data).ok()
}

/// The readable members of a container table, in order.
pub open spec fn readable_entries(tab: Seq<(Seq<char>, Option<Seq<u8>>)>) -> Seq<
    (Seq<char>, Seq<u8>),
>
    decreases tab.len(),
{
    if tab.len() == 0 {
        Seq::empty()
    } else {
        readable_entries(tab.drop_last()) + match tab.last().1 {
            Some(d) => seq![(tab.last().0, d)],
            None => Seq::empty(),
        }
    }
}

/// The names and data of an entry list.
pub open spec fn entry_views(es: Seq<ArchiveEntry>) -> Seq<(Seq<char>, Seq<u8>)> {
    es.map(|i: int, e: ArchiveEntry| (e.name@, e.data@))
}

/// One named member of the export archive.
pub struct ArchiveEntry {
    pub name: String,
    pub data: Vec<u8>,
}

/// The export archive: named byte entries in container order.
pub struct Archive {
    pub entries: Vec<ArchiveEntry>,
}

/// Index of the first entry called `name` at or after position `i`.
pub open spec fn first_match_from(entries: Seq<ArchiveEntry>, name: Seq<char>, i: int) -> Option<
    int,
>
    decreases entries.len() - i,
{
    if i < 0 || i >= entries.len() {
        None
    } else if entries[i].name@ == name {
        Some(i)
    } else {
        first_match_from(entries, name, i + 1)
    }
}

/// Skipping a prefix without matches does not change the first match.
proof fn lemma_first_match_advance(entries: Seq<ArchiveEntry>, name: Seq<char>, i: int)
    requires
        0 <= i <= entries.len(),
        forall|j: int| 0 <= j < i ==> #[trigger] entries[j].name@ != name,
    ensures
        first_match_from(entries, name, 0) == first_match_from(entries, name, i),
    decreases i,
{
    if i > 0 {
        lemma_first_match_advance(entries, name, i - 1);
    }
}

/// Drop leading characters satisfying `p`.
pub open spec fn strip_front(s: Seq<char>, p: spec_fn(char) -> bool) -> Seq<char>
    decreases s.len(),
{
    if s.len() > 0 && p(s[0]) {
        strip_front(s.drop_first(), p)
    } else {
        s
    }
}

/// Drop trailing characters satisfying `p`.
pub open spec fn strip_back(s: Seq<char>, p: spec_fn(char) -> bool) -> Seq<char>
    decreases s.len(),
{
    if s.len() > 0 && p(s.last()) {
        strip_back(s.drop_last(), p)
    } else {
        s
    }
}

proof fn lemma_strip_front_index(s: Seq<char>, p: spec_fn(char) -> bool, k: int)
    requires
        0 <= k <= s.len(),
        forall|j: int| 0 <= j < k ==> p(#[trigger] s[j]),
        k == s.len() || !p(s[k]),
    ensures
        strip_front(s, p) == s.subrange(k, s.len() as int),
    decreases k,
{
    if k == 0 {
        assert(s.subrange(0, s.len() as int) =~= s);
    } else {
        let t = s.drop_first();
        assert(t =~= s.subrange(1, s.len() as int));
        lemma_strip_front_index(t, p, k - 1);
        assert(t.subrange(k - 1, t.len() as int) =~= s.subrange(k, s.len() as int));
    }
}

proof fn lemma_strip_back_index(s: Seq<char>, p: spec_fn(char) -> bool, k: int)
    requires
        0 <= k <= s.len(),
        forall|j: int| k <= j < s.len() ==> p(#[trigger] s[j]),
        k == 0 || !p(s[k - 1]),
    ensures
        strip_back(s, p) == s.subrange(0, k),
    decreases s.len() - k,
{
    if k == s.len() {
        if s.len() > 0 && p(s.last()) {
            assert(false);
        }
        assert(s.subrange(0, s.len() as int) =~= s);
    } else {
        let t = s.drop_last();
        assert(t =~= s.subrange(0, s.len() - 1));
        lemma_strip_back_index(t, p, k);
        assert(t.subrange(0, k) =~= s.subrange(0, k));
    }
}

/// Record-text cleaning: drop any leading byte-order marks, then trim
/// whitespace from both ends.
pub open spec fn cleaned(s: Seq<char>) -> Seq<char> {
    strip_back(
        strip_front(strip_front(s, |c: char| c == '\u{feff}'), |c: char| is_space(c)),
        |c: char| is_space(c),
    )
}

/// The usable text of a record file: `None` for bytes that are not UTF-8
/// or whose cleaned text is empty (such a file counts as absent).
pub open spec fn clean_text(bytes: Seq<u8>) -> Option<Seq<char>> {
    if valid_utf8(bytes) {
        let t = cleaned(decode_utf8(bytes));
        if t.len() == 0 {
            None
        } else {
            Some(t)
        }
    } else {
        None
    }
}

/// Clean a decoded record text: drop leading byte-order marks, trim
/// whitespace from both ends.
pub fn clean_string(s: &str) -> (r: String)
    ensures
        r@ == cleaned(s@),
{
    let cs = chars_of(s);
    let n = cs.len();
    let mut a: usize = 0;
    while a < n && cs[a] == '\u{feff}'
        invariant
            0 <= a <= n,
            n == cs@.len(),
            cs@ == s@,
            forall|j: int| 0 <= j < a ==> #[trigger] cs@[j] == '\u{feff}',
        decreases n - a,
    {
        a += 1;
    }
    let ghost s1 = strip_front(s@, |c: char| c == '\u{feff}');
    proof {
        lemma_strip_front_index(s@, |c: char| c == '\u{feff}', a as int);
    }
    let mut b: usize = a;
    while b < n && space_char(cs[b])
        invariant
            a <= b <= n,
            n == cs@.len(),
            cs@ == s@,
            s1 == s@.subrange(a as int, s@.len() as int),
            forall|j: int| a <= j < b ==> is_space(#[trigger] cs@[j]),
        decreases n - b,
    {
        b += 1;
    }
    let ghost s2 = strip_front(s1, |c: char| is_space(c));
    proof {
        assert(forall|j: int| 0 <= j < b - a ==> is_space(#[trigger] s1[j]));
        lemma_strip_front_index(s1, |c: char| is_space(c), b - a);
        assert(s2 =~= s@.subrange(b as int, s@.len() as int));
    }
    let mut e: usize = n;
    while e > b && space_char(cs[e - 1])
        invariant
            b <= e <= n,
            n == cs@.len(),
            cs@ == s@,
            s2 == s@.subrange(b as int, s@.len() as int),
            forall|j: int| e <= j < n ==> is_space(#[trigger] cs@[j]),
        decreases e,
    {
        e -= 1;
    }
    proof {
        assert(forall|j: int| e - b <= j < s2.len() ==> is_space(#[trigger] s2[j]));
        lemma_strip_back_index(s2, |c: char| is_space(c), e - b);
        assert(strip_back(s2, |c: char| is_space(c)) =~= s@.subrange(b as int, e as int));
    }
    let r = s.substring_char(b, e).to_owned();
    r
}

/// An exact copy of a byte vector.
pub fn copy_bytes(v: &Vec<u8>) -> (r: Vec<u8>)
    ensures
        r@ == v@,
{
    let mut r: Vec<u8> = Vec::new();
    let mut i: usize = 0;
    while i < v.len()
        invariant
            i <= v@.len(),
            r@ == v@.subrange(0, i as int),
        decreases v@.len() - i,
    {
        r.push(v[i]);
        i += 1;
    }
    proof {
        assert(v@.subrange(0, v@.len() as int) =~= v@);
    }
    r
}

/// String equality against a string slice.
pub fn string_eq_str(a: &String, b: &str) -> (r: bool)
    ensures
        r == (a@ == b@),
{
    let bs = b.to_owned();
    *a == bs
}

impl Archive {
    /// The data of the first entry called `name`, in container order.
    pub open spec fn lookup(self, name: Seq<char>) -> Option<Seq<u8>> {
        match first_match_from(self.entries@, name, 0) {
            Some(i) => Some(self.entries@[i].data@),
            None => None,
        }
    }

    /// The archive holds an entry called `name`.
    pub open spec fn has_entry(self, name: Seq<char>) -> bool {
        first_match_from(self.entries@, name, 0) is Some
    }

    /// The cleaned text of the entry called `name`: `None` where the entry
    /// is missing, not UTF-8, or empty after cleaning.
    pub open spec fn text_of(self, name: Seq<char>) -> Option<Seq<char>> {
        match self.lookup(name) {
            Some(bytes) => clean_text(bytes),
            None => None,
        }
    }

    /// An archive over an explicit entry list.
    pub fn from_entries(entries: Vec<ArchiveEntry>) -> (r: Archive)
        ensures
            r.entries@ == entries@,
    {
        Archive { entries }
    }

    /// Decompress a zip container held in memory into an archive view:
    /// exactly the container's readable members, in container order.
    /// A container that cannot be opened is a structural failure
    /// reported as text.
    #[verifier::loop_isolation(false)]
    pub fn from_zip_bytes(data: Vec<u8>) -> (r: Result<Archive, String>)
        ensures
            r matches Ok(ar) ==> (zip_entries_of(data@) matches Some(tab) && entry_views(
                ar.entries@,
            ) == readable_entries(tab)),
            r is Err ==> zip_entries_of(data@) is None,
    {
        let mut archive = match zip_open(data) {
            Ok(a) => a,
            Err(e) => {
                return Err(e);
            },
        };
        let ghost tab = zip_contents(archive);
        let n = zip_len(&archive);
        let mut entries: Vec<ArchiveEntry> = Vec::new();
        let mut i: usize = 0;
        while i < n
            invariant
                i <= n,
                n == tab.len(),
                zip_contents(archive) == tab,
                entry_views(entries@) == readable_entries(tab.subrange(0, i as int)),
            decreases n - i,
        {
            let ghost pre = tab.subrange(0, i as int);
            let ghost pre1 = tab.subrange(0, i + 1);
            proof {
                assert(pre1.drop_last() =~= pre);
                assert(pre1.last() == tab[i as int]);
            }
            match zip_entry(&mut archive, i) {
                Some((name, data)) => {
                    entries.push(ArchiveEntry { name, data });
                    proof {
                        assert(entry_views(entries@) =~= readable_entries(pre1));
                    }
                },
                None => {
                    proof {
                        assert(entry_views(entries@) =~= readable_entries(pre1));
                    }
                },
            }
            i += 1;
        }
        proof {
            assert(tab.subrange(0, tab.len() as int) =~= tab);
        }
        Ok(Archive { entries })
    }

    /// The names of all entries, in container order.
    pub fn names(&self) -> (r: Vec<String>)
        ensures
            r@.len() == self.entries@.len(),
            forall|i: int| 0 <= i < r@.len() ==> #[trigger] r@[i]@ == self.entries@[i].name@,
    {
        let mut r: Vec<String> = Vec::new();
        let mut i: usize = 0;
        while i < self.entries.len()
            invariant
                i <= self.entries@.len(),
                r@.len() == i,
                forall|j: int| 0 <= j < i ==> #[trigger] r@[j]@ == self.entries@[j].name@,
            decreases self.entries@.len() - i,
        {
            r.push(self.entries[i].name.clone());
            i += 1;
        }
        r
    }

    /// Whether an entry with exactly this name exists.
    pub fn file_exists(&self, path: &str) -> (r: bool)
        ensures
            r == self.has_entry(path@),
    {
        let mut i: usize = 0;
        while i < self.entries.len()
            invariant
                i <= self.entries@.len(),
                forall|j: int| 0 <= j < i ==> #[trigger] self.entries@[j].name@ != path@,
            decreases self.entries@.len() - i,
        {
            if string_eq_str(&self.entries[i].name, path) {
                proof {
                    lemma_first_match_advance(self.entries@, path@, i as int);
                }
                return true;
            }
            i += 1;
        }
        proof {
            lemma_first_match_advance(self.entries@, path@, self.entries@.len() as int);
        }
        false
    }

    /// The raw bytes of the first entry with this name.
    pub fn read_binary(&self, path: &str) -> (r: Option<Vec<u8>>)
        ensures
            match r {
                Some(d) => self.lookup(path@) == Some(d@),
                None => self.lookup(path@) is None,
            },
    {
        let mut i: usize = 0;
        while i < self.entries.len()
            invariant
                i <= self.entries@.len(),
                forall|j: int| 0 <= j < i ==> #[trigger] self.entries@[j].name@ != path@,
            decreases self.entries@.len() - i,
        {
            if string_eq_str(&self.entries[i].name, path) {
                proof {
                    lemma_first_match_advance(self.entries@, path@, i as int);
                }
                return Some(copy_bytes(&self.entries[i].data));
            }
            i += 1;
        }
        proof {
            lemma_first_match_advance(self.entries@, path@, self.entries@.len() as int);
        }
        None
    }

    /// The cleaned text of the first entry with this name. An entry that
    /// is missing, not UTF-8, or empty after cleaning reads as absent.
    pub fn read_text(&self, path: &str) -> (r: Option<String>)
        ensures
            match r {
                Some(t) => self.text_of(path@) == Some(t@),
                None => self.text_of(path@) is None,
            },
    {
        let data = match self.read_binary(path) {
            Some(d) => d,
            None => {
                return None;
            },
        };
        let s = match bytes_to_string(data) {
            Some(s) => s,
            None => {
                return None;
            },
        };
        let t = clean_string(s.as_str());
        if t.as_str().unicode_len() == 0 {
            None
        } else {
            Some(t)
        }
    }
}

} // verus!
