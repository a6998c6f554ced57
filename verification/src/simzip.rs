//! The archive model and writer: entries, archive-level metadata,
//! duplicate rejection, and the serialization of local records, the
//! central directory and the end record into one byte buffer.
use vstd::prelude::*;

use crate::calendar::dos_ok;
use crate::calendar::dos_time_of;
use crate::calendar::dos_date_of;
use crate::calendar::dos_datetime;
use crate::codec::deflate_of;
use crate::codec::deflate_compress;
use crate::crc32::crc32_spec;
use crate::crc32::update_fast_16;
use crate::crc32::update_slow;
use crate::format::le16;
use crate::format::le32;
use crate::format::trunc16;
use crate::format::trunc32;
use crate::format::push_le16;
use crate::format::push_le32;
use crate::format::push_bytes;
use crate::format::patch_le32_pair;

verus! {

/// The compression methods the format enumerates. Only `Store` and
/// `Deflate` have an encoder here; the others are declared values
/// that fail at serialization time.
#[derive(Debug, Clone, Copy, PartialEq, Eq, Structural)]
pub enum Compression {
    Store,
    Shrink,
    Reduction1,
    Reduction2,
    Reduction3,
    Reduction4,
    Implode,
    Deflate,
    Deflat64,
    BZIP2,
    LZMA,
    PPMd,
}

impl Compression {
    /// The 16-bit method code the format assigns to each method.
    pub open spec fn spec_value(&self) -> u16 {
        match *self {
            Compression::Store => 0,
            Compression::Shrink => 1,
            Compression::Reduction1 => 2,
            Compression::Reduction2 => 3,
            Compression::Reduction3 => 4,
            Compression::Reduction4 => 5,
            Compression::Implode => 6,
            Compression::Deflate => 8,
            Compression::Deflat64 => 9,
            Compression::BZIP2 => 12,
            Compression::LZMA => 14,
            Compression::PPMd => 98,
        }
    }

    /// Returns the fixed method code of the format.
    pub fn value(&self) -> (r: u16)
        ensures
            r == self.spec_value(),
    {
        match *self {
            Compression::Store => 0,
            Compression::Shrink => 1,
            Compression::Reduction1 => 2,
            Compression::Reduction2 => 3,
            Compression::Reduction3 => 4,
            Compression::Reduction4 => 5,
            Compression::Implode => 6,
            Compression::Deflate => 8,
            Compression::Deflat64 => 9,
            Compression::BZIP2 => 12,
            Compression::LZMA => 14,
            Compression::PPMd => 98,
        }
    }
}

impl Default for Compression {
    /// The method used when none is chosen: Deflate, as the codec
    /// capability is available.
    fn default() -> (r: Compression)
        ensures
            r == Compression::Deflate,
    {
        Compression::Deflate
    }
}

/// Whether the method has an encoder in this writer.
pub open spec fn supported(c: Compression) -> bool {
    c == Compression::Store || c == Compression::Deflate
}

/// Where an entry's payload comes from: an owned in-memory buffer,
/// or a path whose contents and metadata the caller reads and hands
/// in at store time.
#[derive(Debug)]
pub enum Location {
    Disk(String),
    Mem(Vec<u8>),
}

impl Default for Location {
    /// The default payload is an empty in-memory buffer.
    fn default() -> (r: Location)
        ensures
            r matches Location::Mem(v) && v@ =~= Seq::<u8>::empty(),
    {
        Location::Mem(Vec::new())
    }
}

/// The two permission flags carried into the central directory's
/// external-attributes field.
#[derive(Debug, Clone, Copy, PartialEq, Eq, Structural)]
pub enum Attribute {
    Exec,
    NoWrite,
}

/// Whether the flag `a` is present in the attribute list.
pub open spec fn has_attr(s: Seq<Attribute>, a: Attribute) -> bool {
    exists|i: int| 0 <= i < s.len() && s[i] == a
}

/// The view of an optional string: its character sequence, when
/// present.
pub open spec fn opt_str_view(o: Option<String>) -> Option<Seq<char>> {
    match o {
        Option::None => Option::<Seq<char>>::None,
        Option::Some(s) => Option::Some(s@),
    }
}

/// One recorded name-and-path pair of the duplicate-rejection
/// directory.
pub struct DirKey {
    pub name: String,
    pub path: Option<String>,
}

/// Whether the directory already records this name-and-path pair.
pub open spec fn dir_contains(d: Seq<DirKey>, name: Seq<char>, path: Option<Seq<char>>) -> bool {
    exists|i: int| 0 <= i < d.len() && d[i].name@ == name && opt_str_view(d[i].path) == path
}

/// Extending the directory by one key contains a pair exactly when
/// the old directory did, or the new key is that pair.
proof fn lemma_dir_contains_push(d: Seq<DirKey>, k: DirKey, name: Seq<char>, path: Option<
    Seq<char>,
>)
    ensures
        dir_contains(d.push(k), name, path) == (dir_contains(d, name, path) || (k.name@ == name
            && opt_str_view(k.path) == path)),
{
    if dir_contains(d, name, path) {
        let w = choose|i: int|
            0 <= i < d.len() && d[i].name@ == name && opt_str_view(d[i].path) == path;
        assert(d.push(k)[w] == d[w]);
    }
    if k.name@ == name && opt_str_view(k.path) == path {
        assert(d.push(k)[d.len() as int] == k);
    }
    if dir_contains(d.push(k), name, path) {
        let w = choose|i: int|
            0 <= i < d.push(k).len() && d.push(k)[i].name@ == name && opt_str_view(
                d.push(k)[i].path,
            ) == path;
        if w < d.len() {
            assert(d[w] == d.push(k)[w]);
        } else {
            assert(d.push(k)[w] == k);
        }
    }
}

/// Once a pair is recorded, the same pair is contained, so a later
/// add of an entry with that name and path is refused.
pub proof fn lemma_duplicate_rejected(
    d: Seq<DirKey>,
    name: Seq<char>,
    path: Option<Seq<char>>,
    k: DirKey,
)
    requires
        k.name@ == name,
        opt_str_view(k.path) == path,
    ensures
        dir_contains(d.push(k), name, path),
{
    assert(d.push(k)[d.len() as int] == k);
}

/// One archive member: its logical name and path, payload source,
/// chosen method, and the fields computed while an archive holding
/// it is stored.
#[derive(Debug)]
pub struct ZipEntry {
    pub name: String,
    pub path: Option<String>,
    pub comment: Option<String>,
    pub attributes: Vec<Attribute>,
    pub compression: Compression,
    pub data: Location,
    pub len: u32,
    pub crc: u32,
    pub offset: u32,
    pub modified: u64,
    pub uid: u32,
    pub gid: u32,
    pub created: u64,
    pub times_mask: u8,
    pub orig_len: u32,
}

/// The archive: output name, optional comment, optional
/// duplicate-rejection directory, and the ordered entries.
pub struct ZipInfo {
    pub zip_name: String,
    pub directory: Option<Vec<DirKey>>,
    pub comment: Option<String>,
    pub entries: Vec<ZipEntry>,
}

/// The filesystem metadata capability's answer for one disk-sourced
/// payload: the file's bytes and the metadata read alongside them.
pub struct FileMeta {
    pub data: Vec<u8>,
    pub size: u64,
    pub mtime: u64,
    pub atime: u64,
    pub ctime: u64,
    pub created: u64,
    pub uid: u32,
    pub gid: u32,
    pub readonly: bool,
    pub executable: bool,
}

/// Why a store failed, carrying what caused it. Input/output
/// failures live with the caller that owns the file handles; these
/// are the failures of the serialization itself.
#[derive(Debug, Clone, Copy, PartialEq, Eq, Structural)]
pub enum ZipError {
    /// The declared method has no encoder.
    UnsupportedCompression(Compression),
    /// The timestamp, in seconds since 1970-01-01, falls outside the
    /// years the DOS encoding can hold.
    TimeOutOfRange(u64),
}

/// The display name of a compression method.
pub open spec fn compression_label(c: Compression) -> Seq<char> {
    match c {
        Compression::Store => "Store"@,
        Compression::Shrink => "Shrink"@,
        Compression::Reduction1 => "Reduction1"@,
        Compression::Reduction2 => "Reduction2"@,
        Compression::Reduction3 => "Reduction3"@,
        Compression::Reduction4 => "Reduction4"@,
        Compression::Implode => "Implode"@,
        Compression::Deflate => "Deflate"@,
        Compression::Deflat64 => "Deflat64"@,
        Compression::BZIP2 => "BZIP2"@,
        Compression::LZMA => "LZMA"@,
        Compression::PPMd => "PPMd"@,
    }
}

impl Compression {
    /// The method's display name, as it appears in error messages.
    pub fn label(&self) -> (r: String)
        ensures
            r@ == compression_label(*self),
    {
        match *self {
            Compression::Store => "Store".to_owned(),
            Compression::Shrink => "Shrink".to_owned(),
            Compression::Reduction1 => "Reduction1".to_owned(),
            Compression::Reduction2 => "Reduction2".to_owned(),
            Compression::Reduction3 => "Reduction3".to_owned(),
            Compression::Reduction4 => "Reduction4".to_owned(),
            Compression::Implode => "Implode".to_owned(),
            Compression::Deflate => "Deflate".to_owned(),
            Compression::Deflat64 => "Deflat64".to_owned(),
            Compression::BZIP2 => "BZIP2".to_owned(),
            Compression::LZMA => "LZMA".to_owned(),
            Compression::PPMd => "PPMd".to_owned(),
        }
    }
}

/// The wording of each failure.
pub open spec fn zip_error_message(e: ZipError) -> Seq<char> {
    match e {
        ZipError::UnsupportedCompression(c) => "compression "@ + compression_label(c)
            + " isn't supported yet"@,
        ZipError::TimeOutOfRange(_) => "timestamp cannot be represented in the archive"@,
    }
}

impl ZipError {
    /// The failure as a sentence naming its cause.
    pub fn message(&self) -> (r: String)
        ensures
            r@ == zip_error_message(*self),
    {
        match *self {
            ZipError::UnsupportedCompression(c) => {
                let mut s = "compression ".to_owned();
                s.append(c.label().as_str());
                s.append(" isn't supported yet");
                s
            },
            ZipError::TimeOutOfRange(_) => "timestamp cannot be represented in the archive"
                .to_owned(),
        }
    }
}

/// The path with any run of trailing slashes removed.
pub open spec fn strip_trailing_slashes(p: Seq<char>) -> Seq<char>
    decreases p.len(),
{
    if p.len() > 0 && p.last() == '/' {
        strip_trailing_slashes(p.drop_last())
    } else {
        p
    }
}

/// The path's base name: trailing slashes do not count, and what
/// follows the last remaining slash is the name, as a POSIX base
/// name gives it.
pub open spec fn base_name(p: Seq<char>) -> Seq<char> {
    let q = strip_trailing_slashes(p);
    if exists|i: int| last_slash_at(q, i) {
        q.subrange((choose|i: int| last_slash_at(q, i)) + 1, q.len() as int)
    } else {
        q
    }
}

/// Whether `i` is the index of the last slash of `p`.
pub open spec fn last_slash_at(p: Seq<char>, i: int) -> bool {
    &&& 0 <= i < p.len()
    &&& p[i] == '/'
    &&& forall|j: int| i < j < p.len() ==> p[j] != '/'
}

impl ZipEntry {
    /// A fresh entry around an in-memory payload, with no path, no
    /// comment, no flags, the default method, and derived fields
    /// zero until a store completes.
    pub fn new(name: &str, data: Vec<u8>) -> (e: ZipEntry)
        ensures
            e.name@ == name@,
            e.path is None,
            e.comment is None,
            e.attributes@ =~= Seq::<Attribute>::empty(),
            e.compression == Compression::Deflate,
            e.data matches Location::Mem(v) && v@ == data@,
            e.len == 0 && e.crc == 0 && e.offset == 0 && e.modified == 0 && e.uid == 0 && e.gid
                == 0 && e.created == 0 && e.times_mask == 0 && e.orig_len == 0,
    {
        ZipEntry {
            name: name.to_owned(),
            path: Option::None,
            comment: Option::None,
            attributes: Vec::new(),
            compression: Compression::default(),
            data: Location::Mem(data),
            len: 0,
            crc: 0,
            offset: 0,
            modified: 0,
            uid: 0,
            gid: 0,
            created: 0,
            times_mask: 0,
            orig_len: 0,
        }
    }

    /// A fresh entry around a disk payload: the display name is the
    /// part of the path after its last slash, and the payload is
    /// read by the caller at store time.
    pub fn from_file(path: &str, zip_path: Option<&str>) -> (e: ZipEntry)
        ensures
            e.name@ == base_name(path@),
            opt_str_view(e.path) == match zip_path {
                Option::None => Option::<Seq<char>>::None,
                Option::Some(z) => Option::Some(z@),
            },
            e.comment is None,
            e.attributes@ =~= Seq::<Attribute>::empty(),
            e.compression == Compression::Deflate,
            e.data matches Location::Disk(p) && p@ == path@,
            e.len == 0 && e.crc == 0 && e.offset == 0 && e.modified == 0 && e.uid == 0 && e.gid
                == 0 && e.created == 0 && e.times_mask == 0 && e.orig_len == 0,
    {
        ZipEntry {
            name: base_name_of(path),
            path: match zip_path {
                Option::None => Option::None,
                Option::Some(z) => Option::Some(z.to_owned()),
            },
            comment: Option::None,
            attributes: Vec::new(),
            compression: Compression::default(),
            data: Location::Disk(path.to_owned()),
            len: 0,
            crc: 0,
            offset: 0,
            modified: 0,
            uid: 0,
            gid: 0,
            created: 0,
            times_mask: 0,
            orig_len: 0,
        }
    }
}

/// The part of `path` after its last slash, as an owned string.
fn base_name_of(path: &str) -> (r: String)
    ensures
        r@ == base_name(path@),
{
    let full = path.unicode_len();
    // Ignore trailing slashes, as a POSIX base name does.
    let mut n: usize = full;
    proof {
        assert(path@.take(full as int) =~= path@);
    }
    while n > 0 && path.get_char(n - 1) == '/'
        invariant
            n <= full,
            full == path@.len(),
            strip_trailing_slashes(path@) == strip_trailing_slashes(path@.take(n as int)),
        decreases n,
    {
        n = n - 1;
        proof {
            assert(path@.take(n + 1).drop_last() =~= path@.take(n as int));
            assert(path@.take(n + 1).last() == path@[n as int]);
        }
    }
    let ghost q = path@.take(n as int);
    proof {
        if n > 0 {
            assert(q.last() == path@[n - 1]);
        }
        assert(strip_trailing_slashes(q) == q);
        assert(strip_trailing_slashes(path@) == q);
    }
    // The name begins after the last slash of what remains.
    let mut i: usize = n;
    while i > 0
        invariant
            i <= n <= full,
            full == path@.len(),
            q == path@.take(n as int),
            strip_trailing_slashes(path@) == q,
            forall|j: int| i <= j < n ==> path@[j] != '/',
        decreases i,
    {
        if path.get_char(i - 1) == '/' {
            proof {
                assert(q[i - 1] == path@[i - 1]);
                assert(forall|j: int| i - 1 < j < n ==> q[j] == path@[j]);
                assert(last_slash_at(q, i - 1));
            }
            let r = path.substring_char(i, n);
            proof {
                let w = choose|w: int| last_slash_at(q, w);
                assert(w == i - 1);
                assert(r@ =~= q.subrange(i as int, n as int));
                assert(base_name(path@) == q.subrange(i as int, n as int));
            }
            return r.to_owned();
        }
        i = i - 1;
    }
    proof {
        assert(forall|j: int| 0 <= j < n ==> q[j] == path@[j] && path@[j] != '/');
        assert(!exists|w: int| last_slash_at(q, w));
    }
    let r = path.substring_char(0, n);
    proof {
        assert(r@ =~= q);
    }
    r.to_owned()
}

/// Compares two optional strings by their character sequences.
fn opt_str_eq(a: &Option<String>, b: &Option<String>) -> (r: bool)
    ensures
        r == (opt_str_view(*a) == opt_str_view(*b)),
{
    match (a, b) {
        (Option::None, Option::None) => true,
        (Option::Some(x), Option::Some(y)) => {
            let r = *x == *y;
            proof {
                assert(opt_str_view(*a) == Option::Some(x@));
                assert(opt_str_view(*b) == Option::Some(y@));
            }
            r
        },
        (Option::None, Option::Some(_)) => false,
        (Option::Some(_), Option::None) => false,
    }
}

impl ZipInfo {
    /// A fresh archive that will be written under `name`, with no
    /// comment, no duplicate rejection, and no entries.
    pub fn new(name: &str) -> (z: ZipInfo)
        ensures
            z.zip_name@ == name@,
            z.directory is None,
            z.comment is None,
            z.entries@ =~= Seq::<ZipEntry>::empty(),
    {
        ZipInfo {
            zip_name: name.to_owned(),
            directory: Option::None,
            comment: Option::None,
            entries: Vec::new(),
        }
    }

    /// As `new`, with an archive comment for the end record.
    pub fn new_with_comment(name: &str, comment: &str) -> (z: ZipInfo)
        ensures
            z.zip_name@ == name@,
            z.directory is None,
            z.comment matches Some(c) && c@ == comment@,
            z.entries@ =~= Seq::<ZipEntry>::empty(),
    {
        ZipInfo {
            zip_name: name.to_owned(),
            directory: Option::None,
            comment: Option::Some(comment.to_owned()),
            entries: Vec::new(),
        }
    }

    /// Turns duplicate rejection on: from here on, an entry whose
    /// name and path match one added since this call is refused.
    pub fn prohibit_duplicates(&mut self)
        ensures
            final(self).directory matches Some(d) && d@ =~= Seq::<DirKey>::empty(),
            final(self).zip_name == old(self).zip_name,
            final(self).comment == old(self).comment,
            final(self).entries == old(self).entries,
    {
        self.directory = Option::Some(Vec::new());
    }

    /// Adds an entry and says whether it was taken. With duplicate
    /// rejection off every entry is taken; with it on, an entry
    /// whose name and path are already recorded is refused and the
    /// archive is unchanged.
    pub fn add(&mut self, entry: ZipEntry) -> (added: bool)
        ensures
            added == match old(self).directory {
                Option::None => true,
                Option::Some(d) => !dir_contains(d@, entry.name@, opt_str_view(entry.path)),
            },
            added ==> final(self).entries@ == old(self).entries@.push(entry),
            !added ==> final(self).entries@ == old(self).entries@,
            match old(self).directory {
                Option::None => final(self).directory is None,
                Option::Some(d) => {
                    &&& final(self).directory matches Some(d2)
                    &&& added ==> d2@.len() == d@.len() + 1 && d2@.take(d@.len() as int) == d@
                        && d2@.last().name@ == entry.name@ && opt_str_view(d2@.last().path)
                        == opt_str_view(entry.path)
                    &&& !added ==> d2@ == d@
                },
            },
            final(self).zip_name == old(self).zip_name,
            final(self).comment == old(self).comment,
    {
        match &mut self.directory {
            Option::None => {
                self.entries.push(entry);
                true
            },
            Option::Some(dir) => {
                let mut i: usize = 0;
                let mut found = false;
                while i < dir.len()
                    invariant
                        i <= dir@.len(),
                        found == dir_contains(
                            dir@.take(i as int),
                            entry.name@,
                            opt_str_view(entry.path),
                        ),
                    decreases dir@.len() - i,
                {
                    let k = &dir[i];
                    if k.name == entry.name && opt_str_eq(&k.path, &entry.path) {
                        found = true;
                    }
                    i = i + 1;
                    proof {
                        let dv = dir@;
                        lemma_dir_contains_push(
                            dv.take(i - 1),
                            dv[i - 1],
                            entry.name@,
                            opt_str_view(entry.path),
                        );
                        assert(dv.take(i as int) =~= dv.take(i - 1).push(dv[i - 1]));
                    }
                }
                proof {
                    assert(dir@.take(dir@.len() as int) =~= dir@);
                }
                if found {
                    false
                } else {
                    let key = DirKey {
                        name: entry.name.clone(),
                        path: match &entry.path {
                            Option::None => Option::None,
                            Option::Some(p) => Option::Some(p.clone()),
                        },
                    };
                    dir.push(key);
                    self.entries.push(entry);
                    true
                }
            },
        }
    }
}

impl PartialEq for ZipEntry {
    /// Two entries are the same member when their name and logical
    /// path agree; contents and derived fields do not count.
    fn eq(&self, other: &Self) -> (r: bool) {
        self.name == other.name && opt_str_eq(&self.path, &other.path)
    }
}

impl vstd::std_specs::cmp::PartialEqSpecImpl for ZipEntry {
    open spec fn obeys_eq_spec() -> bool {
        true
    }

    open spec fn eq_spec(&self, other: &Self) -> bool {
        self.name@ == other.name@ && opt_str_view(self.path) == opt_str_view(other.path)
    }
}

/// Whether the payload input matches the entry: in-memory entries
/// take no file data, disk entries take exactly one reading.
pub open spec fn entry_input_ok(e: ZipEntry, meta: Option<FileMeta>) -> bool {
    e.data is Mem <==> meta is None
}

/// The entry's uncompressed payload bytes.
pub open spec fn entry_data(e: ZipEntry, meta: Option<FileMeta>) -> Seq<u8> {
    match e.data {
        Location::Mem(v) => v@,
        Location::Disk(_) => meta->Some_0.data@,
    }
}

/// The last-modified, last-accessed and status-change times used for
/// the Unix-timestamp extra field: an in-memory entry carries only
/// the wall-clock time of the store, a disk entry its file's times.
pub open spec fn entry_times(e: ZipEntry, meta: Option<FileMeta>, now: u64) -> (u64, u64, u64) {
    match e.data {
        Location::Mem(_) => (0u64, 0u64, now),
        Location::Disk(_) => (meta->Some_0.mtime, meta->Some_0.atime, meta->Some_0.ctime),
    }
}

/// The timestamp written as the entry's modification time.
pub open spec fn resolved_modified(e: ZipEntry, meta: Option<FileMeta>, now: u64) -> u64 {
    match e.data {
        Location::Mem(_) => now,
        Location::Disk(_) => meta->Some_0.mtime,
    }
}

/// The timestamp recorded as the entry's creation time.
pub open spec fn resolved_created(e: ZipEntry, meta: Option<FileMeta>, now: u64) -> u64 {
    match e.data {
        Location::Mem(_) => now,
        Location::Disk(_) => meta->Some_0.created,
    }
}

/// The attribute list after folding in the permissions read from a
/// disk source: read-only adds `NoWrite`, an execute bit adds
/// `Exec`, each only when not already present.
pub open spec fn resolved_attrs(a: Seq<Attribute>, meta: Option<FileMeta>) -> Seq<Attribute> {
    match meta {
        Option::None => a,
        Option::Some(m) => a + (if m.readonly && !has_attr(a, Attribute::NoWrite) {
            seq![Attribute::NoWrite]
        } else {
            Seq::<Attribute>::empty()
        }) + (if m.executable && !has_attr(a, Attribute::Exec) {
            seq![Attribute::Exec]
        } else {
            Seq::<Attribute>::empty()
        }),
    }
}

/// The uncompressed size recorded for the entry: the buffer's length,
/// or the file size the metadata reported.
pub open spec fn orig_size(e: ZipEntry, meta: Option<FileMeta>) -> int {
    match e.data {
        Location::Mem(v) => v@.len() as int,
        Location::Disk(_) => meta->Some_0.size as int,
    }
}

/// The present-time bitmask of the Unix-timestamp extra field:
/// bit 0 for a modification time, bit 1 for an access time, bit 2
/// for a status-change time, each only when strictly positive.
pub open spec fn mask_of(mt: u64, at: u64, ct: u64) -> u8 {
    ((if mt > 0 {
        1int
    } else {
        0int
    }) + (if at > 0 {
        2int
    } else {
        0int
    }) + (if ct > 0 {
        4int
    } else {
        0int
    })) as u8
}

/// How many of the three timestamps are present.
pub open spec fn times_count(mt: u64, at: u64, ct: u64) -> int {
    (if mt > 0 {
        1int
    } else {
        0int
    }) + (if at > 0 {
        1int
    } else {
        0int
    }) + (if ct > 0 {
        1int
    } else {
        0int
    })
}

/// The payload bytes a supported method emits.
pub open spec fn spec_payload(c: Compression, data: Seq<u8>) -> Seq<u8> {
    if c == Compression::Store {
        data
    } else {
        deflate_of(data)
    }
}

/// The characters of the name written into the records: the logical
/// path, a slash and the display name, or the display name alone.
pub open spec fn combined_name_chars(e: ZipEntry) -> Seq<char> {
    match e.path {
        Option::Some(p) => p@ + seq!['/'] + e.name@,
        Option::None => e.name@,
    }
}

/// The UTF-8 bytes of the name written into the records.
pub open spec fn name_bytes_of(e: ZipEntry) -> Seq<u8> {
    vstd::utf8::encode_utf8(combined_name_chars(e))
}

/// The UTF-8 bytes of an optional comment; empty when absent.
pub open spec fn opt_comment_bytes(o: Option<String>) -> Seq<u8> {
    match o {
        Option::Some(c) => vstd::utf8::encode_utf8(c@),
        Option::None => Seq::<u8>::empty(),
    }
}

/// The Unix-timestamp extra field of a local record: tag 0x5455, the
/// length of what follows, the present-time mask, then the present
/// timestamps in modification, access, status-change order.
pub open spec fn ut_local_field(mt: u64, at: u64, ct: u64) -> Seq<u8> {
    le16(0x5455) + le16((1 + 4 * times_count(mt, at, ct)) as u16) + seq![mask_of(mt, at, ct)] + (
    if mt > 0 {
        le32(trunc32(mt as int))
    } else {
        Seq::<u8>::empty()
    }) + (if at > 0 {
        le32(trunc32(at as int))
    } else {
        Seq::<u8>::empty()
    }) + (if ct > 0 {
        le32(trunc32(ct as int))
    } else {
        Seq::<u8>::empty()
    })
}

/// The fixed fourteen leading bytes of a local record: signature,
/// version needed to extract, flags, method, DOS time and date.
pub open spec fn local_head(e: ZipEntry) -> Seq<u8> {
    seq![0x50u8, 0x4Bu8, 0x03u8, 0x04u8] + le16(20) + le16(0) + le16(e.compression.spec_value())
        + le16(dos_time_of(e.modified)) + le16(dos_date_of(e.modified))
}

/// Everything of a local record after its checksum and
/// compressed-size fields: uncompressed size, name length,
/// extra-field length, name, extra field, payload.
pub open spec fn local_tail(e: ZipEntry, mt: u64, at: u64, ct: u64, payload: Seq<u8>) -> Seq<u8> {
    le32(e.orig_len) + le16(trunc16(name_bytes_of(e).len() as int)) + le16(
        (5 + 4 * times_count(mt, at, ct)) as u16,
    ) + name_bytes_of(e) + ut_local_field(mt, at, ct) + payload
}

/// A whole local record: header with its patched checksum and sizes,
/// name, extra field, then the payload.
pub open spec fn local_record(e: ZipEntry, mt: u64, at: u64, ct: u64, payload: Seq<u8>) -> Seq<
    u8,
> {
    local_head(e) + le32(e.crc) + le32(e.len) + local_tail(e, mt, at, ct, payload)
}

/// The local record an entry serializes to, given its input reading.
pub open spec fn local_record_of(e: ZipEntry, meta: Option<FileMeta>, now: u64) -> Seq<u8> {
    let t = entry_times(e, meta, now);
    local_record(e, t.0, t.1, t.2, spec_payload(e.compression, entry_data(e, meta)))
}

/// The Unix permission byte of the external-attributes field:
/// base 0o266, masked by 0o155 when writing is refused, extended by
/// 0o111 when execution is allowed.
pub open spec fn perm_of(a: Seq<Attribute>) -> u8 {
    let base: u8 = 0o266;
    let nw: u8 = if has_attr(a, Attribute::NoWrite) {
        base & 0o155
    } else {
        base
    };
    if has_attr(a, Attribute::Exec) {
        nw | 0o111
    } else {
        nw
    }
}

/// The external-attributes word: the POSIX-entry marker bit with the
/// permission byte in bits 16 to 23.
pub open spec fn ext_attr_of(a: Seq<Attribute>) -> u32 {
    0x81000000u32 | ((perm_of(a) as u32) << 16)
}

/// The declared byte length of a central record's extra field.
pub open spec fn central_extra_len(e: ZipEntry) -> int {
    (if e.uid != 0 || e.gid != 0 {
        11int
    } else {
        0int
    }) + (if e.modified != 0 || e.created != 0 {
        9int
    } else {
        0int
    })
}

/// The Unix owner extra field of a central record, present when the
/// entry carries a user or group: tag 0x7875, length, version, then
/// the two-byte user and group.
pub open spec fn ux_field(e: ZipEntry) -> Seq<u8> {
    if e.uid != 0 || e.gid != 0 {
        le16(0x7875) + le16(7) + seq![1u8, 2u8] + le16(trunc16(e.uid as int)) + seq![2u8] + le16(
            trunc16(e.gid as int),
        )
    } else {
        Seq::<u8>::empty()
    }
}

/// The Unix-timestamp extra field of a central record, present when
/// the entry carries a modification or creation time: it reuses the
/// mask recorded while the local record was written, and one
/// timestamp.
pub open spec fn ut_central_field(e: ZipEntry) -> Seq<u8> {
    if e.modified != 0 || e.created != 0 {
        le16(0x5455) + le16(5) + seq![e.times_mask] + le32(
            trunc32(
                if e.modified > 0 {
                    e.modified as int
                } else {
                    e.created as int
                },
            ),
        )
    } else {
        Seq::<u8>::empty()
    }
}

/// A whole central-directory record of a finalized entry.
pub open spec fn central_record(e: ZipEntry) -> Seq<u8> {
    seq![0x50u8, 0x4Bu8, 0x01u8, 0x02u8] + le16(0x033F) + le16(20) + le16(0) + le16(
        e.compression.spec_value(),
    ) + le16(dos_time_of(e.modified)) + le16(dos_date_of(e.modified)) + le32(e.crc) + le32(e.len)
        + le32(e.orig_len) + le16(trunc16(name_bytes_of(e).len() as int)) + le16(
        central_extra_len(e) as u16,
    ) + le16(trunc16(opt_comment_bytes(e.comment).len() as int)) + le16(0) + le16(0) + le32(
        ext_attr_of(e.attributes@),
    ) + le32(e.offset) + name_bytes_of(e) + ux_field(e) + ut_central_field(e) + opt_comment_bytes(
        e.comment,
    )
}

/// The end-of-central-directory record: signature, disk numbers,
/// the entry count twice, the central directory's byte size and
/// start offset, then the archive comment.
pub open spec fn end_record(n: u16, sz: u32, off: u32, comment: Seq<u8>) -> Seq<u8> {
    seq![0x50u8, 0x4Bu8, 0x05u8, 0x06u8] + le16(0) + le16(0) + le16(n) + le16(n) + le32(sz)
        + le32(off) + le16(trunc16(comment.len() as int)) + comment
}

/// All local records of the archive, in entry order.
pub open spec fn locals_bytes(es: Seq<ZipEntry>, metas: Seq<Option<FileMeta>>, now: u64) -> Seq<
    u8,
>
    decreases es.len(),
{
    if es.len() == 0 {
        Seq::<u8>::empty()
    } else {
        locals_bytes(es.drop_last(), metas.drop_last(), now) + local_record_of(
            es.last(),
            metas.last(),
            now,
        )
    }
}

/// All central-directory records of the archive, in entry order.
pub open spec fn centrals_bytes(es: Seq<ZipEntry>) -> Seq<u8>
    decreases es.len(),
{
    if es.len() == 0 {
        Seq::<u8>::empty()
    } else {
        centrals_bytes(es.drop_last()) + central_record(es.last())
    }
}

/// The whole archive: every local record, every central record, then
/// the end record sizing and locating the central directory.
pub open spec fn archive_bytes(
    es: Seq<ZipEntry>,
    metas: Seq<Option<FileMeta>>,
    now: u64,
    comment: Seq<u8>,
) -> Seq<u8> {
    let locals = locals_bytes(es, metas, now);
    let centrals = centrals_bytes(es);
    locals + centrals + end_record(
        trunc16(es.len() as int),
        trunc32(centrals.len() as int),
        trunc32(locals.len() as int),
        comment,
    )
}

/// How a finalized entry relates to the entry it was built from:
/// the caller-visible fields carry over, and the derived fields hold
/// the checksum, sizes, offset, times and attributes this store
/// computed.
pub open spec fn resolved_entry(
    e0: ZipEntry,
    meta: Option<FileMeta>,
    now: u64,
    off: u32,
    e1: ZipEntry,
) -> bool {
    let data = entry_data(e0, meta);
    let t = entry_times(e0, meta, now);
    &&& e1.name@ == e0.name@
    &&& opt_str_view(e1.path) == opt_str_view(e0.path)
    &&& opt_str_view(e1.comment) == opt_str_view(e0.comment)
    &&& e1.compression == e0.compression
    &&& (e1.data is Mem <==> e0.data is Mem)
    &&& (e0.data matches Location::Mem(v) ==> e1.data->Mem_0@ == v@)
    &&& (e0.data matches Location::Disk(p) ==> e1.data->Disk_0@ == p@)
    &&& e1.attributes@ == resolved_attrs(e0.attributes@, meta)
    &&& e1.modified == resolved_modified(e0, meta, now)
    &&& e1.created == resolved_created(e0, meta, now)
    &&& e1.uid == match e0.data {
        Location::Mem(_) => e0.uid,
        Location::Disk(_) => meta->Some_0.uid,
    }
    &&& e1.gid == match e0.data {
        Location::Mem(_) => e0.gid,
        Location::Disk(_) => meta->Some_0.gid,
    }
    &&& e1.times_mask == mask_of(t.0, t.1, t.2)
    &&& e1.orig_len == trunc32(orig_size(e0, meta))
    &&& e1.len == trunc32(spec_payload(e0.compression, data).len() as int)
    &&& e1.crc == crc32_spec(0, data)
    &&& e1.offset == off
    &&& dos_ok(e1.modified)
}

/// Copies a byte buffer.
fn clone_bytes(src: &Vec<u8>) -> (r: Vec<u8>)
    ensures
        r@ == src@,
{
    let mut r: Vec<u8> = Vec::new();
    push_bytes(&mut r, src);
    proof {
        assert(Seq::<u8>::empty() + src@ =~= src@);
    }
    r
}

/// Copies an optional string.
fn clone_opt_string(o: &Option<String>) -> (r: Option<String>)
    ensures
        opt_str_view(r) == opt_str_view(*o),
        r is Some <==> o is Some,
{
    match o {
        Option::None => Option::None,
        Option::Some(s) => Option::Some(s.clone()),
    }
}

/// Copies a payload source.
fn clone_location(l: &Location) -> (r: Location)
    ensures
        r is Mem <==> l is Mem,
        l matches Location::Mem(v) ==> r->Mem_0@ == v@,
        l matches Location::Disk(p) ==> r->Disk_0@ == p@,
{
    match l {
        Location::Mem(v) => Location::Mem(clone_bytes(v)),
        Location::Disk(p) => Location::Disk(p.clone()),
    }
}

/// Copies an attribute list.
fn clone_attrs(v: &Vec<Attribute>) -> (r: Vec<Attribute>)
    ensures
        r@ == v@,
{
    let mut r: Vec<Attribute> = Vec::new();
    let mut i: usize = 0;
    while i < v.len()
        invariant
            i <= v@.len(),
            r@ == v@.take(i as int),
        decreases v@.len() - i,
    {
        r.push(v[i]);
        i = i + 1;
        proof {
            assert(v@.take(i - 1).push(v@[i - 1]) =~= v@.take(i as int));
        }
    }
    proof {
        assert(v@.take(v@.len() as int) =~= v@);
    }
    r
}

/// Extending an attribute list by one flag contains a flag exactly
/// when the old list did, or the new flag is it.
proof fn lemma_has_attr_push(s: Seq<Attribute>, x: Attribute, a: Attribute)
    ensures
        has_attr(s.push(x), a) == (has_attr(s, a) || x == a),
{
    if has_attr(s, a) {
        let w = choose|i: int| 0 <= i < s.len() && s[i] == a;
        assert(s.push(x)[w] == s[w]);
    }
    if x == a {
        assert(s.push(x)[s.len() as int] == x);
    }
    if has_attr(s.push(x), a) {
        let w = choose|i: int| 0 <= i < s.push(x).len() && s.push(x)[i] == a;
        if w < s.len() {
            assert(s[w] == s.push(x)[w]);
        } else {
            assert(s.push(x)[w] == x);
        }
    }
}

/// Whether the flag is present in the list.
fn has_attribute(v: &Vec<Attribute>, a: Attribute) -> (r: bool)
    ensures
        r == has_attr(v@, a),
{
    let mut i: usize = 0;
    let mut found = false;
    while i < v.len()
        invariant
            i <= v@.len(),
            found == has_attr(v@.take(i as int), a),
        decreases v@.len() - i,
    {
        if v[i] == a {
            found = true;
        }
        i = i + 1;
        proof {
            lemma_has_attr_push(v@.take(i - 1), v@[i - 1], a);
            assert(v@.take(i as int) =~= v@.take(i - 1).push(v@[i - 1]));
        }
    }
    proof {
        assert(v@.take(v@.len() as int) =~= v@);
    }
    found
}

/// The UTF-8 bytes of the name this entry is recorded under.
fn combined_name_bytes(e: &ZipEntry) -> (r: Vec<u8>)
    ensures
        r@ == name_bytes_of(*e),
{
    let combined: String = match &e.path {
        Option::Some(p) => {
            let mut s = p.clone();
            s.append("/");
            s.append(e.name.as_str());
            proof {
                reveal_strlit("/");
                assert("/"@ =~= seq!['/']);
            }
            s
        },
        Option::None => e.name.clone(),
    };
    combined.as_str().as_bytes_vec()
}

/// The UTF-8 bytes of an optional comment.
fn opt_comment_vec(o: &Option<String>) -> (r: Vec<u8>)
    ensures
        r@ == opt_comment_bytes(*o),
{
    match o {
        Option::None => Vec::new(),
        Option::Some(c) => c.as_str().as_bytes_vec(),
    }
}

/// Extending the entry list extends the local records by that
/// entry's record.
proof fn lemma_locals_push(
    es: Seq<ZipEntry>,
    metas: Seq<Option<FileMeta>>,
    e: ZipEntry,
    m: Option<FileMeta>,
    now: u64,
)
    ensures
        locals_bytes(es.push(e), metas.push(m), now) == locals_bytes(es, metas, now)
            + local_record_of(e, m, now),
{
    assert(es.push(e).drop_last() =~= es);
    assert(metas.push(m).drop_last() =~= metas);
    assert(es.push(e).last() == e);
    assert(metas.push(m).last() == m);
}

/// Extending the entry list extends the central directory by that
/// entry's record.
proof fn lemma_centrals_push(es: Seq<ZipEntry>, e: ZipEntry)
    ensures
        centrals_bytes(es.push(e)) == centrals_bytes(es) + central_record(e),
{
    assert(es.push(e).drop_last() =~= es);
    assert(es.push(e).last() == e);
}

/// Appends one byte.
fn push_byte(out: &mut Vec<u8>, b: u8)
    ensures
        final(out)@ == old(out)@ + seq![b],
{
    out.push(b);
    proof {
        assert(out@ =~= old(out)@ + seq![b]);
    }
}

/// Appends a four-byte record signature.
fn push_sig(out: &mut Vec<u8>, b0: u8, b1: u8, b2: u8, b3: u8)
    ensures
        final(out)@ == old(out)@ + seq![b0, b1, b2, b3],
{
    out.push(b0);
    out.push(b1);
    out.push(b2);
    out.push(b3);
    proof {
        assert(out@ =~= old(out)@ + seq![b0, b1, b2, b3]);
    }
}

/// After rewriting the two placeholder fields of a record laid out
/// as header, placeholders, tail, the record is the same with the
/// real values in place.
proof fn lemma_patch_chunks(oldv: Seq<u8>, newv: Seq<u8>, pre: Seq<u8>, t: Seq<u8>, a: u32, b: u32)
    requires
        oldv == ((pre + le32(0u32)) + le32(0u32)) + t,
        newv == ((oldv.subrange(0, pre.len() as int) + le32(a)) + le32(b)) + oldv.subrange(
            pre.len() as int + 8,
            oldv.len() as int,
        ),
    ensures
        newv == ((pre + le32(a)) + le32(b)) + t,
{
    assert(oldv.subrange(0, pre.len() as int) =~= pre);
    assert(oldv.subrange(pre.len() as int + 8, oldv.len() as int) =~= t);
}

/// Appends the Unix-timestamp extra field of a local record.
fn write_ut_local(out: &mut Vec<u8>, mt: u64, at: u64, ct: u64, mask: u8, nt: u16)
    requires
        mask == mask_of(mt, at, ct),
        nt as int == times_count(mt, at, ct),
    ensures
        final(out)@ == old(out)@ + ut_local_field(mt, at, ct),
{
    let mut v: Vec<u8> = Vec::new();
    push_le16(&mut v, 0x5455);
    proof {
        assert(Seq::<u8>::empty() + le16(0x5455) =~= le16(0x5455));
    }
    let ghost acc = le16(0x5455u16);
    push_le16(&mut v, 1 + 4 * nt);
    let ghost acc = acc + le16((1 + 4 * times_count(mt, at, ct)) as u16);
    push_byte(&mut v, mask);
    let ghost acc = acc + seq![mask_of(mt, at, ct)];
    let ghost t1: Seq<u8> = if mt > 0 {
        le32(trunc32(mt as int))
    } else {
        Seq::<u8>::empty()
    };
    if mt > 0 {
        push_le32(&mut v, (mt % 0x100000000u64) as u32);
    } else {
        proof {
            assert(v@ + t1 =~= v@);
        }
    }
    let ghost acc = acc + t1;
    let ghost t2: Seq<u8> = if at > 0 {
        le32(trunc32(at as int))
    } else {
        Seq::<u8>::empty()
    };
    if at > 0 {
        push_le32(&mut v, (at % 0x100000000u64) as u32);
    } else {
        proof {
            assert(v@ + t2 =~= v@);
        }
    }
    let ghost acc = acc + t2;
    let ghost t3: Seq<u8> = if ct > 0 {
        le32(trunc32(ct as int))
    } else {
        Seq::<u8>::empty()
    };
    if ct > 0 {
        push_le32(&mut v, (ct % 0x100000000u64) as u32);
    } else {
        proof {
            assert(v@ + t3 =~= v@);
        }
    }
    let ghost acc = acc + t3;
    proof {
        assert(v@ == acc);
        assert(acc == ut_local_field(mt, at, ct));
    }
    push_bytes(out, &v);
}

/// Appends the Unix owner extra field of a central record, when the
/// entry carries one.
fn write_ux_central(out: &mut Vec<u8>, e: &ZipEntry)
    ensures
        final(out)@ == old(out)@ + ux_field(*e),
{
    if e.uid != 0 || e.gid != 0 {
        let mut v: Vec<u8> = Vec::new();
        push_le16(&mut v, 0x7875);
        proof {
            assert(Seq::<u8>::empty() + le16(0x7875) =~= le16(0x7875));
        }
        let ghost acc = le16(0x7875u16);
        push_le16(&mut v, 7);
        let ghost acc = acc + le16(7u16);
        push_byte(&mut v, 1);
        push_byte(&mut v, 2);
        proof {
            assert(v@ =~= acc + seq![1u8, 2u8]);
        }
        let ghost acc = acc + seq![1u8, 2u8];
        push_le16(&mut v, (e.uid % 0x10000u32) as u16);
        let ghost acc = acc + le16(trunc16(e.uid as int));
        push_byte(&mut v, 2);
        let ghost acc = acc + seq![2u8];
        push_le16(&mut v, (e.gid % 0x10000u32) as u16);
        let ghost acc = acc + le16(trunc16(e.gid as int));
        proof {
            assert(v@ == acc);
            assert(acc == ux_field(*e));
        }
        push_bytes(out, &v);
    } else {
        proof {
            assert(out@ + ux_field(*e) =~= out@);
        }
    }
}

/// Appends the Unix-timestamp extra field of a central record, when
/// the entry carries one: it reuses the mask recorded during the
/// local-record write.
fn write_ut_central(out: &mut Vec<u8>, e: &ZipEntry)
    ensures
        final(out)@ == old(out)@ + ut_central_field(*e),
{
    if e.modified != 0 || e.created != 0 {
        let mut v: Vec<u8> = Vec::new();
        push_le16(&mut v, 0x5455);
        proof {
            assert(Seq::<u8>::empty() + le16(0x5455) =~= le16(0x5455));
        }
        let ghost acc = le16(0x5455u16);
        push_le16(&mut v, 5);
        let ghost acc = acc + le16(5u16);
        push_byte(&mut v, e.times_mask);
        let ghost acc = acc + seq![e.times_mask];
        let tv: u64 = if e.modified > 0 {
            e.modified
        } else {
            e.created
        };
        push_le32(&mut v, (tv % 0x100000000u64) as u32);
        let ghost acc = acc + le32(
            trunc32(
                if e.modified > 0 {
                    e.modified as int
                } else {
                    e.created as int
                },
            ),
        );
        proof {
            assert(v@ == acc);
            assert(acc == ut_central_field(*e));
        }
        push_bytes(out, &v);
    } else {
        proof {
            assert(out@ + ut_central_field(*e) =~= out@);
        }
    }
}

/// Serializes one entry's local record onto `out`: header with
/// placeholder checksum and compressed-size fields, name, extra
/// field and payload, then a bounded in-place rewrite of the two
/// placeholder fields once the payload has fixed them. Returns the
/// finalized entry for the later central-directory pass.
#[verifier::rlimit(60)]
fn write_local(out: &mut Vec<u8>, e: &ZipEntry, meta: &Option<FileMeta>, now: u64) -> (r: Result<
    ZipEntry,
    ZipError,
>)
    requires
        entry_input_ok(*e, *meta),
    ensures
        r matches Ok(e1) ==> resolved_entry(
            *e,
            *meta,
            now,
            trunc32(old(out)@.len() as int),
            e1,
        ) && final(out)@ == old(out)@ + local_record_of(e1, *meta, now),
        r is Err ==> final(out)@ == old(out)@,
        (r == Result::<ZipEntry, ZipError>::Err(
            ZipError::TimeOutOfRange(resolved_modified(*e, *meta, now)),
        )) <==> !dos_ok(resolved_modified(*e, *meta, now)),
        (r == Result::<ZipEntry, ZipError>::Err(ZipError::UnsupportedCompression(e.compression)))
            <==> dos_ok(resolved_modified(*e, *meta, now)) && !supported(e.compression),
        dos_ok(resolved_modified(*e, *meta, now)) && supported(e.compression) ==> r is Ok,
{
    // Resolve the timestamps, ownership and permissions: wall-clock
    // time for an in-memory payload, the file's own metadata for a
    // disk payload.
    let (mt, at, ct): (u64, u64, u64) = match (&e.data, meta) {
        (Location::Mem(_), _) => (0, 0, now),
        (Location::Disk(_), Option::Some(m)) => (m.mtime, m.atime, m.ctime),
        (Location::Disk(_), Option::None) => unreached(),
    };
    let (modified, created): (u64, u64) = match (&e.data, meta) {
        (Location::Mem(_), _) => (now, now),
        (Location::Disk(_), Option::Some(m)) => (m.mtime, m.created),
        (Location::Disk(_), Option::None) => unreached(),
    };
    let (uid, gid): (u32, u32) = match (&e.data, meta) {
        (Location::Mem(_), _) => (e.uid, e.gid),
        (Location::Disk(_), Option::Some(m)) => (m.uid, m.gid),
        (Location::Disk(_), Option::None) => unreached(),
    };
    let (dtime, ddate) = match dos_datetime(modified) {
        Option::None => {
            return Result::Err(ZipError::TimeOutOfRange(modified));
        },
        Option::Some(td) => td,
    };
    let is_store = match e.compression {
        Compression::Store => true,
        _ => false,
    };
    let is_deflate = match e.compression {
        Compression::Deflate => true,
        _ => false,
    };
    if !is_store && !is_deflate {
        return Result::Err(ZipError::UnsupportedCompression(e.compression));
    }
    let data: &Vec<u8> = match (&e.data, meta) {
        (Location::Mem(v), _) => v,
        (Location::Disk(_), Option::Some(m)) => &m.data,
        (Location::Disk(_), Option::None) => unreached(),
    };
    let payload: Vec<u8> = if is_store {
        clone_bytes(data)
    } else {
        deflate_compress(data)
    };
    let hasnw = has_attribute(&e.attributes, Attribute::NoWrite);
    let hasex = has_attribute(&e.attributes, Attribute::Exec);
    let mut attrs = clone_attrs(&e.attributes);
    match meta {
        Option::Some(m) => {
            if m.readonly && !hasnw {
                attrs.push(Attribute::NoWrite);
            }
            if m.executable && !hasex {
                attrs.push(Attribute::Exec);
            }
        },
        Option::None => {},
    }
    proof {
        assert(attrs@ =~= resolved_attrs(e.attributes@, *meta));
    }
    let orig_len: u32 = match (&e.data, meta) {
        (Location::Mem(v), _) => ((v.len() as u64) % 0x100000000u64) as u32,
        (Location::Disk(_), Option::Some(m)) => (m.size % 0x100000000u64) as u32,
        (Location::Disk(_), Option::None) => unreached(),
    };
    let offset: u32 = ((out.len() as u64) % 0x100000000u64) as u32;
    let mut mask: u8 = 0;
    let mut nt: u16 = 0;
    if mt > 0 {
        mask = mask + 1;
        nt = nt + 1;
    }
    if at > 0 {
        mask = mask + 2;
        nt = nt + 1;
    }
    if ct > 0 {
        mask = mask + 4;
        nt = nt + 1;
    }
    let code = e.compression.value();
    let crcv = if is_store {
        match &e.data {
            Location::Mem(_) => update_fast_16(0, data.as_slice()),
            Location::Disk(_) => update_slow(0, data.as_slice()),
        }
    } else {
        update_slow(0, data.as_slice())
    };
    let plen32: u32 = ((payload.len() as u64) % 0x100000000u64) as u32;
    let name_vec = combined_name_bytes(e);
    let nl16: u16 = ((name_vec.len() as u64) % 0x10000u64) as u16;
    // The record: local file header with placeholder checksum and
    // compressed-size fields, name, extra field, payload.
    let mut rec: Vec<u8> = Vec::new();
    push_sig(&mut rec, 0x50, 0x4B, 0x03, 0x04);
    proof {
        assert(Seq::<u8>::empty() + seq![0x50u8, 0x4Bu8, 0x03u8, 0x04u8] =~= seq![
            0x50u8,
            0x4Bu8,
            0x03u8,
            0x04u8,
        ]);
    }
    let ghost acc: Seq<u8> = seq![0x50u8, 0x4Bu8, 0x03u8, 0x04u8];
    push_le16(&mut rec, 20);
    let ghost acc = acc + le16(20u16);
    push_le16(&mut rec, 0);
    let ghost acc = acc + le16(0u16);
    push_le16(&mut rec, code);
    let ghost acc = acc + le16(code);
    push_le16(&mut rec, dtime);
    let ghost acc = acc + le16(dtime);
    push_le16(&mut rec, ddate);
    let ghost acc = acc + le16(ddate);
    let ghost head = acc;
    push_le32(&mut rec, 0);
    push_le32(&mut rec, 0);
    // Everything after the placeholders.
    push_le32(&mut rec, orig_len);
    let ghost tacc: Seq<u8> = le32(orig_len);
    push_le16(&mut rec, nl16);
    proof {
        vstd::seq_lib::lemma_concat_associative(
            (head + le32(0u32)) + le32(0u32),
            tacc,
            le16(nl16),
        );
    }
    let ghost tacc = tacc + le16(nl16);
    push_le16(&mut rec, 5 + 4 * nt);
    proof {
        vstd::seq_lib::lemma_concat_associative(
            (head + le32(0u32)) + le32(0u32),
            tacc,
            le16((5 + 4 * nt) as u16),
        );
    }
    let ghost tacc = tacc + le16((5 + 4 * nt) as u16);
    push_bytes(&mut rec, &name_vec);
    proof {
        vstd::seq_lib::lemma_concat_associative(
            (head + le32(0u32)) + le32(0u32),
            tacc,
            name_vec@,
        );
    }
    let ghost tacc = tacc + name_vec@;
    write_ut_local(&mut rec, mt, at, ct, mask, nt);
    proof {
        vstd::seq_lib::lemma_concat_associative(
            (head + le32(0u32)) + le32(0u32),
            tacc,
            ut_local_field(mt, at, ct),
        );
    }
    let ghost tacc = tacc + ut_local_field(mt, at, ct);
    push_bytes(&mut rec, &payload);
    proof {
        vstd::seq_lib::lemma_concat_associative(
            (head + le32(0u32)) + le32(0u32),
            tacc,
            payload@,
        );
    }
    let ghost tacc = tacc + payload@;
    proof {
        assert(rec@ == ((head + le32(0u32)) + le32(0u32)) + tacc);
        assert(head.len() == 14);
        assert(rec@.len() == 22 + tacc.len());
    }
    // Patch the checksum and compressed size back into the header.
    let ghost pre_patch = rec@;
    patch_le32_pair(&mut rec, 14, crcv, plen32);
    proof {
        lemma_patch_chunks(pre_patch, rec@, head, tacc, crcv, plen32);
    }
    let e1 = ZipEntry {
        name: e.name.clone(),
        path: clone_opt_string(&e.path),
        comment: clone_opt_string(&e.comment),
        attributes: attrs,
        compression: e.compression,
        data: clone_location(&e.data),
        len: plen32,
        crc: crcv,
        offset,
        modified,
        uid,
        gid,
        created,
        times_mask: mask,
        orig_len,
    };
    proof {
        assert(combined_name_chars(e1) == combined_name_chars(*e));
        assert(entry_data(e1, *meta) == entry_data(*e, *meta));
        assert(payload@ == spec_payload(e1.compression, entry_data(e1, *meta)));
        assert(head == local_head(e1));
        assert(tacc == local_tail(e1, mt, at, ct, payload@));
        assert(rec@ == local_record(e1, mt, at, ct, payload@));
        assert(entry_times(e1, *meta, now) == (mt, at, ct));
        assert(local_record_of(e1, *meta, now) == local_record(e1, mt, at, ct, payload@));
        assert(resolved_entry(*e, *meta, now, trunc32(old(out)@.len() as int), e1));
    }
    push_bytes(out, &rec);
    Result::Ok(e1)
}

/// Serializes one finalized entry's central-directory record onto
/// `out`. The declared extra-field length is proved equal to the
/// extra-field bytes that follow, so the mismatch the format counts
/// as an internal defect cannot arise.
#[verifier::rlimit(60)]
fn write_central(out: &mut Vec<u8>, e: &ZipEntry)
    requires
        dos_ok(e.modified),
    ensures
        final(out)@ == old(out)@ + central_record(*e),
{
    let (dtime, ddate) = match dos_datetime(e.modified) {
        Option::Some(td) => td,
        Option::None => unreached(),
    };
    let code = e.compression.value();
    let mut extra_len: u16 = 0;
    if e.uid != 0 || e.gid != 0 {
        extra_len = extra_len + 11;
    }
    if e.modified != 0 || e.created != 0 {
        extra_len = extra_len + 9;
    }
    let mut perm: u8 = 0o266;
    if has_attribute(&e.attributes, Attribute::NoWrite) {
        perm = perm & 0o155;
    }
    if has_attribute(&e.attributes, Attribute::Exec) {
        perm = perm | 0o111;
    }
    let ext_attr: u32 = 0x81000000u32 | ((perm as u32) << 16);
    let name_vec = combined_name_bytes(e);
    let nl16: u16 = ((name_vec.len() as u64) % 0x10000u64) as u16;
    let comment_vec = opt_comment_vec(&e.comment);
    let cl16: u16 = ((comment_vec.len() as u64) % 0x10000u64) as u16;
    let mut rec: Vec<u8> = Vec::new();
    push_sig(&mut rec, 0x50, 0x4B, 0x01, 0x02);
    proof {
        assert(Seq::<u8>::empty() + seq![0x50u8, 0x4Bu8, 0x01u8, 0x02u8] =~= seq![
            0x50u8,
            0x4Bu8,
            0x01u8,
            0x02u8,
        ]);
    }
    let ghost acc: Seq<u8> = seq![0x50u8, 0x4Bu8, 0x01u8, 0x02u8];
    push_le16(&mut rec, 0x033F);
    let ghost acc = acc + le16(0x033Fu16);
    push_le16(&mut rec, 20);
    let ghost acc = acc + le16(20u16);
    push_le16(&mut rec, 0);
    let ghost acc = acc + le16(0u16);
    push_le16(&mut rec, code);
    let ghost acc = acc + le16(code);
    push_le16(&mut rec, dtime);
    let ghost acc = acc + le16(dtime);
    push_le16(&mut rec, ddate);
    let ghost acc = acc + le16(ddate);
    push_le32(&mut rec, e.crc);
    let ghost acc = acc + le32(e.crc);
    push_le32(&mut rec, e.len);
    let ghost acc = acc + le32(e.len);
    push_le32(&mut rec, e.orig_len);
    let ghost acc = acc + le32(e.orig_len);
    push_le16(&mut rec, nl16);
    let ghost acc = acc + le16(nl16);
    push_le16(&mut rec, extra_len);
    let ghost acc = acc + le16(extra_len);
    push_le16(&mut rec, cl16);
    let ghost acc = acc + le16(cl16);
    push_le16(&mut rec, 0);
    let ghost acc = acc + le16(0u16);
    push_le16(&mut rec, 0);
    let ghost acc = acc + le16(0u16);
    push_le32(&mut rec, ext_attr);
    let ghost acc = acc + le32(ext_attr);
    push_le32(&mut rec, e.offset);
    let ghost acc = acc + le32(e.offset);
    push_bytes(&mut rec, &name_vec);
    let ghost acc = acc + name_vec@;
    write_ux_central(&mut rec, e);
    let ghost acc = acc + ux_field(*e);
    write_ut_central(&mut rec, e);
    let ghost acc = acc + ut_central_field(*e);
    push_bytes(&mut rec, &comment_vec);
    let ghost acc = acc + opt_comment_bytes(e.comment);
    proof {
        assert(perm == perm_of(e.attributes@));
        assert(ext_attr == ext_attr_of(e.attributes@));
        assert(extra_len as int == central_extra_len(*e));
        assert(rec@ == acc);
        assert(acc == central_record(*e));
    }
    push_bytes(out, &rec);
}

impl ZipInfo {
    /// Serializes the archive: every entry's local record in order,
    /// then every entry's central-directory record, then the end
    /// record sizing and locating the central directory. Returns the
    /// archive bytes, and finalizes each entry's derived fields.
    ///
    /// `now` is the wall-clock time in seconds since 1970-01-01;
    /// `metas` holds, for each disk-sourced entry in order, the
    /// payload and metadata the caller read for it, and nothing for
    /// in-memory entries.
    #[verifier::rlimit(100)]
    #[verifier::spinoff_prover]
    pub fn store(&mut self, now: u64, metas: &Vec<Option<FileMeta>>) -> (r: Result<
        Vec<u8>,
        ZipError,
    >)
        requires
            metas@.len() == old(self).entries@.len(),
            forall|j: int|
                0 <= j < metas@.len() ==> entry_input_ok(
                    old(self).entries@[j],
                    #[trigger] metas@[j],
                ),
        ensures
            final(self).zip_name == old(self).zip_name,
            final(self).comment == old(self).comment,
            final(self).directory == old(self).directory,
            r is Err ==> *final(self) == *old(self),
            r matches Ok(bytes) ==> ({
                let es = final(self).entries@;
                &&& es.len() == old(self).entries@.len()
                &&& forall|j: int|
                    0 <= j < es.len() ==> resolved_entry(
                        old(self).entries@[j],
                        metas@[j],
                        now,
                        trunc32(locals_bytes(es.take(j), metas@.take(j), now).len() as int),
                        #[trigger] es[j],
                    )
                &&& bytes@ == archive_bytes(es, metas@, now, opt_comment_bytes(old(self).comment))
            }),
            r matches Err(ZipError::TimeOutOfRange(t)) ==> exists|j: int|
                0 <= j < metas@.len() && resolved_modified(
                    old(self).entries@[j],
                    #[trigger] metas@[j],
                    now,
                ) == t && !dos_ok(t),
            r matches Err(ZipError::UnsupportedCompression(c)) ==> exists|j: int|
                0 <= j < metas@.len() && #[trigger] old(self).entries@[j].compression == c
                    && !supported(c),
            (forall|j: int|
                0 <= j < metas@.len() ==> dos_ok(
                    resolved_modified(old(self).entries@[j], #[trigger] metas@[j], now),
                ) && supported(old(self).entries@[j].compression)) ==> r is Ok,
            r is Ok ==> forall|j: int|
                0 <= j < metas@.len() ==> dos_ok(
                    resolved_modified(old(self).entries@[j], #[trigger] metas@[j], now),
                ) && supported(old(self).entries@[j].compression),
    {
        let n = self.entries.len();
        let mut out: Vec<u8> = Vec::new();
        let mut resolved: Vec<ZipEntry> = Vec::new();
        let mut i: usize = 0;
        proof {
            assert(metas@.take(0) =~= Seq::<Option<FileMeta>>::empty());
        }
        while i < n
            invariant
                i <= n,
                n == self.entries@.len(),
                *self == *old(self),
                metas@.len() == n,
                forall|j: int|
                    0 <= j < n ==> entry_input_ok(self.entries@[j], #[trigger] metas@[j]),
                resolved@.len() == i,
                out@ == locals_bytes(resolved@, metas@.take(i as int), now),
                forall|j: int|
                    0 <= j < i ==> resolved_entry(
                        self.entries@[j],
                        metas@[j],
                        now,
                        trunc32(
                            locals_bytes(resolved@.take(j), metas@.take(j), now).len() as int,
                        ),
                        #[trigger] resolved@[j],
                    ),
                forall|j: int| 0 <= j < i ==> supported(#[trigger] self.entries@[j].compression),
                forall|j: int|
                    0 <= j < i ==> dos_ok(
                        resolved_modified(self.entries@[j], #[trigger] metas@[j], now),
                    ),
            decreases n - i,
        {
            let ghost resolved_old = resolved@;
            let ghost out_old = out@;
            let r = write_local(&mut out, &self.entries[i], &metas[i], now);
            match r {
                Result::Err(err) => {
                    return Result::Err(err);
                },
                Result::Ok(e1) => {
                    resolved.push(e1);
                    proof {
                        let es = self.entries@;
                        let rnew = resolved@;
                        assert(rnew =~= resolved_old.push(e1));
                        assert(metas@.take(i + 1) =~= metas@.take(i as int).push(
                            metas@[i as int],
                        ));
                        lemma_locals_push(
                            resolved_old,
                            metas@.take(i as int),
                            e1,
                            metas@[i as int],
                            now,
                        );
                        assert(out@ == locals_bytes(rnew, metas@.take(i + 1), now));
                        assert forall|j: int|
                            0 <= j <= i implies resolved_entry(
                            es[j],
                            metas@[j],
                            now,
                            trunc32(
                                locals_bytes(rnew.take(j), metas@.take(j), now).len() as int,
                            ),
                            #[trigger] rnew[j],
                        ) by {
                            assert(rnew.take(j) =~= resolved_old.take(j));
                            if j == i {
                                assert(rnew[j] == e1);
                                assert(resolved_old.take(i as int) =~= resolved_old);
                            } else {
                                assert(rnew[j] == resolved_old[j]);
                            }
                        }
                    }
                },
            }
            i = i + 1;
        }
        proof {
            assert(metas@.take(n as int) =~= metas@);
        }
        let central_start = out.len();
        let ghost locals_all = out@;
        let mut k: usize = 0;
        proof {
            assert(resolved@.take(0) =~= Seq::<ZipEntry>::empty());
            assert(out@ =~= locals_all + centrals_bytes(resolved@.take(0)));
        }
        while k < n
            invariant
                k <= n,
                n == resolved@.len(),
                locals_all == locals_bytes(resolved@, metas@, now),
                central_start == locals_all.len(),
                out@ == locals_all + centrals_bytes(resolved@.take(k as int)),
                forall|j: int| 0 <= j < n ==> dos_ok(#[trigger] resolved@[j].modified),
            decreases n - k,
        {
            write_central(&mut out, &resolved[k]);
            proof {
                assert(resolved@.take(k + 1) =~= resolved@.take(k as int).push(
                    resolved@[k as int],
                ));
                lemma_centrals_push(resolved@.take(k as int), resolved@[k as int]);
                vstd::seq_lib::lemma_concat_associative(
                    locals_all,
                    centrals_bytes(resolved@.take(k as int)),
                    central_record(resolved@[k as int]),
                );
            }
            k = k + 1;
        }
        proof {
            assert(resolved@.take(n as int) =~= resolved@);
        }
        let central_end = out.len();
        let sz32: u32 = (((central_end - central_start) as u64) % 0x100000000u64) as u32;
        let off32: u32 = ((central_start as u64) % 0x100000000u64) as u32;
        let n16: u16 = ((n as u64) % 0x10000u64) as u16;
        let comment_vec = opt_comment_vec(&self.comment);
        let cl16: u16 = ((comment_vec.len() as u64) % 0x10000u64) as u16;
        let mut rec: Vec<u8> = Vec::new();
        push_sig(&mut rec, 0x50, 0x4B, 0x05, 0x06);
        proof {
            assert(Seq::<u8>::empty() + seq![0x50u8, 0x4Bu8, 0x05u8, 0x06u8] =~= seq![
                0x50u8,
                0x4Bu8,
                0x05u8,
                0x06u8,
            ]);
        }
        let ghost acc: Seq<u8> = seq![0x50u8, 0x4Bu8, 0x05u8, 0x06u8];
        push_le16(&mut rec, 0);
        let ghost acc = acc + le16(0u16);
        push_le16(&mut rec, 0);
        let ghost acc = acc + le16(0u16);
        push_le16(&mut rec, n16);
        let ghost acc = acc + le16(n16);
        push_le16(&mut rec, n16);
        let ghost acc = acc + le16(n16);
        push_le32(&mut rec, sz32);
        let ghost acc = acc + le32(sz32);
        push_le32(&mut rec, off32);
        let ghost acc = acc + le32(off32);
        push_le16(&mut rec, cl16);
        let ghost acc = acc + le16(cl16);
        push_bytes(&mut rec, &comment_vec);
        let ghost acc = acc + opt_comment_bytes(self.comment);
        proof {
            let es = resolved@;
            let centrals = centrals_bytes(es);
            assert(sz32 == trunc32(centrals.len() as int));
            assert(off32 == trunc32(locals_all.len() as int));
            assert(n16 == trunc16(es.len() as int));
            assert(cl16 == trunc16(opt_comment_bytes(self.comment).len() as int));
            assert(rec@ == acc);
            assert(acc == end_record(
                trunc16(es.len() as int),
                trunc32(centrals.len() as int),
                trunc32(locals_all.len() as int),
                opt_comment_bytes(self.comment),
            ));
        }
        push_bytes(&mut out, &rec);
        proof {
            assert(out@ == archive_bytes(
                resolved@,
                metas@,
                now,
                opt_comment_bytes(old(self).comment),
            ));
        }
        self.entries = resolved;
        Result::Ok(out)
    }
}

/// The declared length of a local record's extra field equals the
/// number of extra-field bytes actually written: the field declares
/// `5 + 4 * times_count` bytes covering tag, inner length, mask and
/// the present timestamps, and that is exactly the field's length.
pub proof fn lemma_local_extra_len(mt: u64, at: u64, ct: u64)
    ensures
        ut_local_field(mt, at, ct).len() == 5 + 4 * times_count(mt, at, ct),
{
}

/// The declared length of a central record's extra field equals the
/// number of extra-field bytes actually written after it: the owner
/// field's bytes plus the timestamp field's bytes.
pub proof fn lemma_central_extra_len(e: ZipEntry)
    ensures
        central_extra_len(e) == ux_field(e).len() + ut_central_field(e).len(),
{
}

/// The byte sizes of all central-directory records, added one
/// record at a time.
pub open spec fn central_sizes_sum(es: Seq<ZipEntry>) -> int
    decreases es.len(),
{
    if es.len() == 0 {
        0
    } else {
        central_sizes_sum(es.drop_last()) + central_record(es.last()).len()
    }
}

/// The central directory's byte size recorded in the end record is
/// the sum of the sizes of the serialized central-directory
/// records: the directory's bytes are their concatenation.
pub proof fn lemma_central_size_is_sum(es: Seq<ZipEntry>)
    ensures
        centrals_bytes(es).len() == central_sizes_sum(es),
    decreases es.len(),
{
    if es.len() > 0 {
        lemma_central_size_is_sum(es.drop_last());
    }
}

/// The end record of an archive holds the sum of the central
/// records' sizes as the central directory's size, and the position
/// immediately after the last local record's payload as the central
/// directory's offset.
pub proof fn lemma_end_record_fields(
    es: Seq<ZipEntry>,
    metas: Seq<Option<FileMeta>>,
    now: u64,
    comment: Seq<u8>,
)
    ensures
        archive_bytes(es, metas, now, comment) == locals_bytes(es, metas, now) + centrals_bytes(
            es,
        ) + end_record(
            trunc16(es.len() as int),
            trunc32(central_sizes_sum(es)),
            trunc32(locals_bytes(es, metas, now).len() as int),
            comment,
        ),
{
    lemma_central_size_is_sum(es);
}

/// Within the concatenated local records, entry `i`'s record stands
/// exactly at the position given by the records before it.
#[verifier::rlimit(60)]
proof fn lemma_local_record_position(
    es: Seq<ZipEntry>,
    metas: Seq<Option<FileMeta>>,
    now: u64,
    i: int,
)
    requires
        metas.len() == es.len(),
        0 <= i < es.len(),
    ensures
        ({
            let locals = locals_bytes(es, metas, now);
            let pos = locals_bytes(es.take(i), metas.take(i), now).len() as int;
            let rec = local_record_of(es[i], metas[i], now);
            &&& pos + rec.len() <= locals.len()
            &&& locals.subrange(pos, pos + rec.len() as int) == rec
        }),
    decreases es.len(),
{
    let locals = locals_bytes(es, metas, now);
    let pos = locals_bytes(es.take(i), metas.take(i), now).len() as int;
    let rec = local_record_of(es[i], metas[i], now);
    if i == es.len() - 1 {
        assert(es.take(i) =~= es.drop_last());
        assert(metas.take(i) =~= metas.drop_last());
        assert(locals.subrange(pos, pos + rec.len() as int) =~= rec);
    } else {
        lemma_local_record_position(es.drop_last(), metas.drop_last(), now, i);
        assert(es.drop_last().take(i) =~= es.take(i));
        assert(metas.drop_last().take(i) =~= metas.take(i));
        assert(es.drop_last()[i] == es[i] && metas.drop_last()[i] == metas[i]);
        let inner = locals_bytes(es.drop_last(), metas.drop_last(), now);
        assert(locals.subrange(pos, pos + rec.len() as int) =~= inner.subrange(
            pos,
            pos + rec.len() as int,
        ));
    }
}

/// The offset invariant: at the position that the records before
/// entry `i` fix - the position a store records, truncated to 32
/// bits, as that entry's local-header offset in its
/// central-directory record - the archive holds that entry's whole
/// local record, beginning with the local-file-header signature.
pub proof fn lemma_offset_invariant(
    es: Seq<ZipEntry>,
    metas: Seq<Option<FileMeta>>,
    now: u64,
    comment: Seq<u8>,
    i: int,
)
    requires
        metas.len() == es.len(),
        0 <= i < es.len(),
    ensures
        ({
            let a = archive_bytes(es, metas, now, comment);
            let pos = locals_bytes(es.take(i), metas.take(i), now).len() as int;
            let rec = local_record_of(es[i], metas[i], now);
            &&& pos + rec.len() <= a.len()
            &&& a.subrange(pos, pos + rec.len() as int) == rec
            &&& a.subrange(pos, pos + 4) == seq![0x50u8, 0x4Bu8, 0x03u8, 0x04u8]
        }),
{
    lemma_local_record_position(es, metas, now, i);
    let a = archive_bytes(es, metas, now, comment);
    let locals = locals_bytes(es, metas, now);
    let pos = locals_bytes(es.take(i), metas.take(i), now).len() as int;
    let rec = local_record_of(es[i], metas[i], now);
    assert(a.subrange(pos, pos + rec.len() as int) =~= locals.subrange(
        pos,
        pos + rec.len() as int,
    ));
    let t = entry_times(es[i], metas[i], now);
    assert(rec == local_record(
        es[i],
        t.0,
        t.1,
        t.2,
        spec_payload(es[i].compression, entry_data(es[i], metas[i])),
    ));
    assert(rec.len() >= 4);
    assert(a.subrange(pos, pos + 4) =~= rec.subrange(0, 4));
    assert(rec.subrange(0, 4) =~= seq![0x50u8, 0x4Bu8, 0x03u8, 0x04u8]);
}

} // verus!
