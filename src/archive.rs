//! Extraction of ZIP archives into a destination directory, with a guard
//! against entries whose names would escape that directory.

use vstd::prelude::*;

verus! {

#[verifier::external_type_specification]
#[verifier::external_body]
#[verifier::reject_recursive_types(T)]
pub struct ExCursor<T>(std::io::Cursor<T>);

#[verifier::external_type_specification]
#[verifier::external_body]
#[verifier::reject_recursive_types(R)]
pub struct ExZipArchive<R>(zip::ZipArchive<R>);

#[verifier::external_type_specification]
#[verifier::external_body]
pub struct ExZipError(zip::result::ZipError);

/// How a single path component moves the depth below the root:
/// empty and `.` components stay, `..` goes up, anything else goes down.
pub open spec fn component_delta(c: Seq<char>) -> int {
    if c.len() == 0 || c == seq!['.'] {
        0
    } else if c == seq!['.', '.'] {
        -1
    } else {
        1
    }
}

/// A path separator: `/` on every target, and `\\` too under Windows rules.
pub open spec fn is_sep(c: char, win: bool) -> bool {
    c == '/' || (win && c == '\\')
}

/// Walks a relative path left to right over its components, split at the
/// separators of Unix rules (`win` false) or of Windows rules (`win` true).
/// Returns the depth reached by the completed components, whether the depth
/// stayed non-negative after each of them, and the pending last component.
pub open spec fn walk(s: Seq<char>, win: bool) -> (int, bool, Seq<char>)
    decreases s.len(),
{
    if s.len() == 0 {
        (0, true, Seq::empty())
    } else {
        let (d, ok, cur) = walk(s.drop_last(), win);
        if is_sep(s.last(), win) {
            let nd = d + component_delta(cur);
            (nd, ok && nd >= 0, Seq::empty())
        } else {
            (d, ok, cur.push(s.last()))
        }
    }
}

/// Under the path rules of one target, a name stays inside the directory
/// it is resolved against: it holds no NUL character, does not begin with
/// a separator, and no prefix of its components climbs above the starting
/// directory with `..`.
pub open spec fn enclosed_under(s: Seq<char>, win: bool) -> bool {
    let (d, ok, cur) = walk(s, win);
    &&& !s.contains('\0')
    &&& !(s.len() > 0 && is_sep(s[0], win))
    &&& ok
    &&& d + component_delta(cur) >= 0
}

/// A name that stays inside its directory under Unix rules or under
/// Windows rules: the archive reader resolves no other name, whatever
/// target it runs on.
pub open spec fn may_resolve(s: Seq<char>) -> bool {
    enclosed_under(s, false) || enclosed_under(s, true)
}

/// A name that stays inside its directory under both Unix and Windows
/// rules and holds no `:`, so that no drive prefix can start it.
pub open spec fn resolves_everywhere(s: Seq<char>) -> bool {
    enclosed_under(s, false) && enclosed_under(s, true) && !s.contains(':')
}

/// The depth change of a component, from its length and whether it is all dots.
fn delta_of(len: usize, dots: bool, Ghost(c): Ghost<Seq<char>>) -> (r: i8)
    requires
        c.len() == len,
        dots == (forall|j: int| 0 <= j < c.len() ==> c[j] == '.'),
    ensures
        r as int == component_delta(c),
{
    if len == 0 {
        0
    } else if len == 1 && dots {
        assert(c =~= seq!['.']);
        0
    } else if len == 2 && dots {
        assert(c =~= seq!['.', '.']);
        -1
    } else {
        if len == 1 {
            assert(c[0] != '.');
            assert(c != seq!['.']);
        } else if len == 2 {
            assert(c[0] != '.' || c[1] != '.');
            assert(c != seq!['.', '.']);
        } else {
            assert(c.len() != 1 && c.len() != 2);
        }
        1
    }
}

/// Whether `s` stays inside its directory under the rules of one target
/// (see `enclosed_under`).
pub fn name_enclosed_under(s: &str, win: bool) -> (r: bool)
    ensures
        r == enclosed_under(s@, win),
{
    let n = s.unicode_len();
    if n > 0 && (s.get_char(0) == '/' || (win && s.get_char(0) == '\\')) {
        return false;
    }
    let mut depth: usize = 0;
    let mut cur_len: usize = 0;
    let mut dots: bool = true;
    let ghost mut cur: Seq<char> = Seq::empty();
    let mut i: usize = 0;
    while i < n
        invariant
            n == s@.len(),
            i <= n,
            depth <= i,
            cur_len <= i,
            walk(s@.take(i as int), win) == (depth as int, true, cur),
            cur.len() == cur_len,
            dots == (forall|j: int| 0 <= j < cur.len() ==> cur[j] == '.'),
            forall|j: int| 0 <= j < i ==> s@[j] != '\0',
        decreases n - i,
    {
        let c = s.get_char(i);
        assert(s@.take(i + 1).drop_last() =~= s@.take(i as int));
        assert(s@.take(i + 1).last() == c);
        if c == '\0' {
            assert(s@[i as int] == '\0');
            return false;
        }
        if c == '/' || (win && c == '\\') {
            let dl = delta_of(cur_len, dots, Ghost(cur));
            if dl < 0 && depth == 0 {
                proof {
                    lemma_walk_stays_failed(s@, i as int + 1, win);
                }
                return false;
            }
            if dl < 0 {
                depth = depth - 1;
            } else if dl > 0 {
                depth = depth + 1;
            }
            cur_len = 0;
            dots = true;
            proof {
                cur = Seq::empty();
            }
        } else {
            let ghost old_cur = cur;
            let ghost old_dots = dots;
            proof {
                cur = cur.push(c);
            }
            cur_len = cur_len + 1;
            dots = dots && c == '.';
            assert(dots == (forall|j: int| 0 <= j < cur.len() ==> cur[j] == '.')) by {
                if !old_dots {
                    let j = choose|j: int| 0 <= j < old_cur.len() && old_cur[j] != '.';
                    assert(cur[j] == old_cur[j]);
                } else if c != '.' {
                    assert(cur[cur.len() - 1] != '.');
                } else {
                    assert forall|j: int| 0 <= j < cur.len() implies cur[j] == '.' by {
                        if j < old_cur.len() {
                            assert(cur[j] == old_cur[j]);
                        }
                    }
                }
            }
        }
        i = i + 1;
    }
    assert(s@.take(n as int) =~= s@);
    assert(!s@.contains('\0'));
    let dl = delta_of(cur_len, dots, Ghost(cur));
    !(dl < 0 && depth == 0)
}

/// Once a prefix of the walk has climbed above the start, the walk stays failed.
proof fn lemma_walk_stays_failed(s: Seq<char>, i: int, win: bool)
    requires
        0 <= i <= s.len(),
        !walk(s.take(i), win).1,
    ensures
        !walk(s, win).1,
    decreases s.len() - i,
{
    if i == s.len() {
        assert(s.take(i) =~= s);
    } else {
        assert(s.take(i + 1).drop_last() =~= s.take(i));
        lemma_walk_stays_failed(s, i + 1, win);
    }
}

/// Whether `s` stays inside its directory on every target
/// (see `resolves_everywhere`).
pub fn name_resolves_everywhere(s: &str) -> (r: bool)
    ensures
        r == resolves_everywhere(s@),
{
    name_enclosed_under(s, false) && name_enclosed_under(s, true) && !crate::text::has_char(s, ':')
}

/// One entry of an archive: its declared name, the name as the archive
/// reader resolved it when it is safe to extract, and its decompressed bytes.
pub struct ArchiveEntry {
    pub name: String,
    pub enclosed: Option<String>,
    pub data: Vec<u8>,
}

impl ArchiveEntry {
    /// The entry's resolved name agrees with the path guard: a name is only
    /// resolved to itself, only when it may stay inside the destination, and
    /// always when it stays inside on every target.
    pub open spec fn wf(&self) -> bool {
        match self.enclosed {
            Some(e) => may_resolve(self.name@) && e@ == self.name@,
            None => !resolves_everywhere(self.name@),
        }
    }
}

/// Whether `bytes` parse as a ZIP container.
pub uninterp spec fn zip_opens(bytes: Seq<u8>) -> bool;

/// The number of entries in the central directory of the ZIP in `bytes`.
pub uninterp spec fn zip_entry_count(bytes: Seq<u8>) -> nat;

/// Whether entry `i` of the ZIP in `bytes` can be located and decompressed.
pub uninterp spec fn zip_entry_readable(bytes: Seq<u8>, i: int) -> bool;

/// The declared name of entry `i` of the ZIP in `bytes`.
pub uninterp spec fn zip_entry_name(bytes: Seq<u8>, i: int) -> Seq<char>;

/// The decompressed bytes of entry `i` of the ZIP in `bytes`.
pub uninterp spec fn zip_entry_data(bytes: Seq<u8>, i: int) -> Seq<u8>;

/// An opened archive together with the bytes it was opened from.
struct ZipReader {
    archive: zip::ZipArchive<std::io::Cursor<Vec<u8>>>,
    bytes: Ghost<Seq<u8>>,
}

/// Relies on zip::ZipArchive::new, which parses the central directory of
/// the archive held in memory, or fails on a malformed container.
#[verifier::external_body]
fn open_archive(bytes: Vec<u8>) -> (r: Result<zip::ZipArchive<std::io::Cursor<Vec<u8>>>, zip::result::ZipError>)
    ensures
        r is Ok <==> zip_opens(bytes@),
{
    zip::ZipArchive::new(std::io::Cursor::new(bytes))
}

/// Opens the archive in `bytes`, remembering them.
fn open_reader(bytes: Vec<u8>) -> (r: Result<ZipReader, zip::result::ZipError>)
    ensures
        r is Ok <==> zip_opens(bytes@),
        r matches Ok(z) ==> z.bytes@ == bytes@,
{
    let ghost b = bytes@;
    match open_archive(bytes) {
        Ok(archive) => Ok(ZipReader { archive, bytes: Ghost(b) }),
        Err(e) => Err(e),
    }
}

/// Relies on zip::ZipArchive::len: the number of entries of the archive.
#[verifier::external_body]
fn archive_len(z: &ZipReader) -> (r: usize)
    ensures
        r == zip_entry_count(z.bytes@),
{
    z.archive.len()
}

/// Relies on zip::ZipArchive::by_index and on the entry's `name`,
/// `enclosed_name` and `Read` impl. `enclosed_name` gives back the name
/// itself, and only when it holds no NUL and its path components never
/// climb above the start under the target's path rules (Unix or Windows).
#[verifier::external_body]
fn entry_at(z: &mut ZipReader, i: usize) -> (r: Result<ArchiveEntry, zip::result::ZipError>)
    ensures
        final(z).bytes == old(z).bytes,
        r is Ok <==> zip_entry_readable(old(z).bytes@, i as int),
        r matches Ok(e) ==> e.name@ == zip_entry_name(old(z).bytes@, i as int),
        r matches Ok(e) ==> e.data@ == zip_entry_data(old(z).bytes@, i as int),
        r matches Ok(e) ==> e.wf(),
{
    let mut file = z.archive.by_index(i)?;
    let name = file.name().to_string();
    let enclosed = file.enclosed_name().map(|p| p.to_string_lossy().into_owned());
    let mut data: Vec<u8> = Vec::new();
    std::io::Read::read_to_end(&mut file, &mut data).map_err(zip::result::ZipError::Io)?;
    Ok(ArchiveEntry { name, enclosed, data })
}

/// Why an archive could not be read.
pub enum ArchiveError {
    /// The bytes are not a ZIP container.
    Malformed(String),
    /// An entry could not be located or decompressed.
    BadEntry(String),
}

/// One filesystem step of an extraction: create the directory at `path`,
/// or write `data` to the file at `path`, replacing what is there.
pub struct ExtractAction {
    pub path: String,
    pub is_dir: bool,
    pub data: Vec<u8>,
}

impl ExtractAction {
    pub open spec fn view(&self) -> (Seq<char>, bool, Seq<u8>) {
        (self.path@, self.is_dir, self.data@)
    }
}

/// A path joined onto a directory, with a single `/` between them.
pub open spec fn join_spec(root: Seq<char>, name: Seq<char>) -> Seq<char> {
    if root.len() == 0 || root.last() == '/' {
        root + name
    } else {
        root + seq!['/'] + name
    }
}

/// A declared name that ends with `/` marks a directory.
pub open spec fn marks_dir(name: Seq<char>) -> bool {
    name.len() > 0 && name.last() == '/'
}

/// The step that extracting entry `e` under `root` takes, given the name
/// `p` it resolved to.
pub open spec fn step_of(root: Seq<char>, e: ArchiveEntry, p: Seq<char>) -> (Seq<char>, bool, Seq<u8>) {
    if marks_dir(e.name@) {
        (join_spec(root, p), true, Seq::empty())
    } else {
        (join_spec(root, p), false, e.data@)
    }
}

/// The steps of extracting `es` under `root`, in archive order: one for each
/// entry that resolved to a safe name, none for the others.
pub open spec fn plan_of(root: Seq<char>, es: Seq<ArchiveEntry>) -> Seq<(Seq<char>, bool, Seq<u8>)>
    decreases es.len(),
{
    if es.len() == 0 {
        Seq::empty()
    } else {
        let prev = plan_of(root, es.drop_last());
        match es.last().enclosed {
            Some(p) => prev.push(step_of(root, es.last(), p@)),
            None => prev,
        }
    }
}

pub open spec fn plan_view(p: Seq<ExtractAction>) -> Seq<(Seq<char>, bool, Seq<u8>)> {
    p.map_values(|a: ExtractAction| a@)
}

/// Joins `name` onto the directory `root`.
pub fn join_path(root: &str, name: &str) -> (r: String)
    ensures
        r@ == join_spec(root@, name@),
{
    let n = root.unicode_len();
    let mut r = root.to_string();
    if n > 0 && root.get_char(n - 1) != '/' {
        r.append("/");
    }
    r.append(name);
    proof {
        reveal_strlit("/");
    }
    r
}

/// Whether a declared entry name ends with `/`.
pub fn is_dir_name(name: &str) -> (r: bool)
    ensures
        r == marks_dir(name@),
{
    let n = name.unicode_len();
    n > 0 && name.get_char(n - 1) == '/'
}

/// The extraction steps for `entries` under `root`. Entries whose name did
/// not resolve inside the destination are left out; the others keep their
/// archive order.
pub fn plan_extraction(root: &str, entries: &Vec<ArchiveEntry>) -> (r: Vec<ExtractAction>)
    ensures
        plan_view(r@) == plan_of(root@, entries@),
{
    let mut r: Vec<ExtractAction> = Vec::new();
    let mut i: usize = 0;
    while i < entries.len()
        invariant
            i <= entries@.len(),
            plan_view(r@) == plan_of(root@, entries@.take(i as int)),
        decreases entries@.len() - i,
    {
        let e = &entries[i];
        assert(entries@.take(i as int + 1).drop_last() == entries@.take(i as int));
        match &e.enclosed {
            Some(p) => {
                let path = join_path(root, p.as_str());
                let is_dir = is_dir_name(e.name.as_str());
                let data = if is_dir {
                    Vec::new()
                } else {
                    e.data.clone()
                };
                assert(data@ =~= step_of(root@, *e, p@).2);
                let ghost old_r = r@;
                r.push(ExtractAction { path, is_dir, data });
                assert(plan_view(r@) =~= plan_view(old_r).push(step_of(root@, *e, p@)));
            },
            None => {},
        }
        i = i + 1;
    }
    assert(entries@.take(entries@.len() as int) =~= entries@);
    r
}

/// Relies on the `Display` impl of zip::result::ZipError for a readable
/// description of the failure.
#[verifier::external_body]
fn zip_error_message(e: &zip::result::ZipError) -> (r: String)
{
    e.to_string()
}

/// Every entry of the ZIP in `bytes` can be read.
pub open spec fn all_entries_readable(bytes: Seq<u8>) -> bool {
    forall|k: int| 0 <= k < zip_entry_count(bytes) ==> #[trigger] zip_entry_readable(bytes, k)
}

/// `es` are the entries of the ZIP in `bytes`, in archive order.
pub open spec fn entries_of(bytes: Seq<u8>, es: Seq<ArchiveEntry>) -> bool {
    &&& es.len() == zip_entry_count(bytes)
    &&& forall|k: int| 0 <= k < es.len() ==> (#[trigger] es[k]).wf()
    &&& forall|k: int| 0 <= k < es.len() ==> (#[trigger] es[k]).name@ == zip_entry_name(bytes, k)
    &&& forall|k: int| 0 <= k < es.len() ==> (#[trigger] es[k]).data@ == zip_entry_data(bytes, k)
}

/// Reads every entry of the archive held in `bytes`, in archive order.
/// A malformed container fails before any entry is read; an entry that
/// cannot be read fails the whole call.
pub fn read_entries(bytes: Vec<u8>) -> (r: Result<Vec<ArchiveEntry>, ArchiveError>)
    ensures
        r matches Err(ArchiveError::Malformed(_)) <==> !zip_opens(bytes@),
        r matches Err(ArchiveError::BadEntry(_)) <==> zip_opens(bytes@) && !all_entries_readable(bytes@),
        r is Ok <==> zip_opens(bytes@) && all_entries_readable(bytes@),
        r matches Ok(es) ==> entries_of(bytes@, es@),
{
    let ghost b = bytes@;
    let mut z = match open_reader(bytes) {
        Ok(z) => z,
        Err(e) => {
            return Err(ArchiveError::Malformed(zip_error_message(&e)));
        },
    };
    let n = archive_len(&z);
    let mut es: Vec<ArchiveEntry> = Vec::new();
    let mut i: usize = 0;
    while i < n
        invariant
            b == bytes@,
            z.bytes@ == b,
            zip_opens(b),
            n == zip_entry_count(b),
            i <= n,
            es@.len() == i,
            forall|k: int| 0 <= k < i ==> zip_entry_readable(b, k),
            forall|k: int| 0 <= k < es@.len() ==> (#[trigger] es@[k]).wf(),
            forall|k: int| 0 <= k < es@.len() ==> (#[trigger] es@[k]).name@ == zip_entry_name(b, k),
            forall|k: int| 0 <= k < es@.len() ==> (#[trigger] es@[k]).data@ == zip_entry_data(b, k),
        decreases n - i,
    {
        match entry_at(&mut z, i) {
            Ok(e) => {
                es.push(e);
            },
            Err(e) => {
                assert(!zip_entry_readable(b, i as int));
                return Err(ArchiveError::BadEntry(zip_error_message(&e)));
            },
        }
        i = i + 1;
    }
    Ok(es)
}

/// Plans the extraction of the archive in `bytes` under `root`: the steps
/// are those of `plan_extraction` on the archive's entries, so each one
/// targets a path inside `root`. A malformed container or an unreadable
/// entry fails the whole call, and then no step is planned.
pub fn extract(bytes: Vec<u8>, root: &str) -> (r: Result<Vec<ExtractAction>, ArchiveError>)
    ensures
        r matches Err(ArchiveError::Malformed(_)) <==> !zip_opens(bytes@),
        r matches Err(ArchiveError::BadEntry(_)) <==> zip_opens(bytes@) && !all_entries_readable(bytes@),
        r is Ok <==> zip_opens(bytes@) && all_entries_readable(bytes@),
        r matches Ok(plan) ==> exists|es: Seq<ArchiveEntry>|
            entries_of(bytes@, es) && plan_view(plan@) == plan_of(root@, es),
        r matches Ok(plan) ==> forall|k: int| 0 <= k < plan@.len() ==> inside(root@, (#[trigger] plan@[k]).path@),
{
    let ghost b = bytes@;
    let es = read_entries(bytes)?;
    let plan = plan_extraction(root, &es);
    proof {
        lemma_plan_inside(root@, es@);
        assert(entries_of(b, es@));
        assert forall|k: int| 0 <= k < plan@.len() implies inside(root@, (#[trigger] plan@[k]).path@) by {
            assert(plan_view(plan@)[k] == plan@[k]@);
        }
    }
    Ok(plan)
}

/// `path` is `root` joined with a name that stays inside it under Unix or
/// Windows path rules (the rules of the target that extraction runs on).
pub open spec fn inside(root: Seq<char>, path: Seq<char>) -> bool {
    exists|n: Seq<char>| may_resolve(n) && path == #[trigger] join_spec(root, n)
}

/// Extraction writes nothing outside the destination: every step of the
/// plan for well-formed entries targets `root` joined with an enclosed name.
pub proof fn lemma_plan_inside(root: Seq<char>, es: Seq<ArchiveEntry>)
    requires
        forall|k: int| 0 <= k < es.len() ==> (#[trigger] es[k]).wf(),
    ensures
        forall|k: int| 0 <= k < plan_of(root, es).len() ==> inside(root, (#[trigger] plan_of(root, es)[k]).0),
    decreases es.len(),
{
    if es.len() > 0 {
        let init = es.drop_last();
        assert forall|k: int| 0 <= k < init.len() implies (#[trigger] init[k]).wf() by {
            assert(init[k] == es[k]);
        }
        lemma_plan_inside(root, init);
        let e = es.last();
        assert(e.wf());
        match e.enclosed {
            Some(p) => {
                let st = step_of(root, e, p@);
                let w = join_spec(root, p@);
                assert(may_resolve(p@) && st.0 == w);
                assert(inside(root, w));
                let prev = plan_of(root, init);
                assert(plan_of(root, es) == prev.push(st));
                assert forall|k: int| 0 <= k < plan_of(root, es).len() implies inside(
                    root,
                    (#[trigger] plan_of(root, es)[k]).0,
                ) by {
                    if k < prev.len() {
                        assert(plan_of(root, es)[k] == prev[k]);
                    }
                }
            },
            None => {},
        }
    }
}

/// Planning distributes over concatenation of entry lists.
pub proof fn lemma_plan_concat(root: Seq<char>, a: Seq<ArchiveEntry>, b: Seq<ArchiveEntry>)
    ensures
        plan_of(root, a + b) == plan_of(root, a) + plan_of(root, b),
    decreases b.len(),
{
    if b.len() == 0 {
        assert(a + b =~= a);
        assert(plan_of(root, b) =~= Seq::empty());
        assert(plan_of(root, a) + plan_of(root, b) =~= plan_of(root, a));
    } else {
        let b0 = b.drop_last();
        assert((a + b).drop_last() =~= a + b0);
        assert((a + b).last() == b.last());
        lemma_plan_concat(root, a, b0);
        match b.last().enclosed {
            Some(p) => {
                let st = step_of(root, b.last(), p@);
                assert(plan_of(root, a) + plan_of(root, b0).push(st) =~= (plan_of(root, a) + plan_of(root, b0)).push(st));
            },
            None => {},
        }
    }
}

/// An entry whose name would leave the destination is skipped on its own:
/// the entries before and after it are extracted exactly as if it were not
/// in the archive at all.
pub proof fn lemma_unsafe_entry_skipped(root: Seq<char>, a: Seq<ArchiveEntry>, bad: ArchiveEntry, b: Seq<ArchiveEntry>)
    requires
        bad.wf(),
        !may_resolve(bad.name@),
    ensures
        plan_of(root, a.push(bad) + b) == plan_of(root, a + b),
{
    lemma_plan_concat(root, a.push(bad), b);
    lemma_plan_concat(root, a, b);
    assert(a.push(bad).drop_last() =~= a);
}

/// When every entry's name stays inside the destination on every target,
/// extraction makes
/// one step per entry, in archive order: a directory for a name ending in
/// `/`, otherwise the file at `root` joined with the name, holding exactly
/// the entry's bytes.
pub proof fn lemma_confined_archive_extracted(root: Seq<char>, es: Seq<ArchiveEntry>)
    requires
        forall|k: int| 0 <= k < es.len() ==> (#[trigger] es[k]).wf(),
        forall|k: int| 0 <= k < es.len() ==> resolves_everywhere((#[trigger] es[k]).name@),
    ensures
        plan_of(root, es).len() == es.len(),
        forall|k: int| 0 <= k < es.len() ==> (#[trigger] plan_of(root, es)[k]) == (
            join_spec(root, es[k].name@),
            marks_dir(es[k].name@),
            if marks_dir(es[k].name@) { Seq::<u8>::empty() } else { es[k].data@ },
        ),
    decreases es.len(),
{
    if es.len() > 0 {
        let init = es.drop_last();
        assert forall|k: int| 0 <= k < init.len() implies (#[trigger] init[k]).wf() && resolves_everywhere(init[k].name@) by {
            assert(init[k] == es[k]);
        }
        lemma_confined_archive_extracted(root, init);
        let e = es.last();
        assert(e.wf() && resolves_everywhere(e.name@));
        let p = e.enclosed->0;
        assert(plan_of(root, es) == plan_of(root, init).push(step_of(root, e, p@)));
        assert forall|k: int| 0 <= k < es.len() implies (#[trigger] plan_of(root, es)[k]) == (
            join_spec(root, es[k].name@),
            marks_dir(es[k].name@),
            if marks_dir(es[k].name@) { Seq::<u8>::empty() } else { es[k].data@ },
        ) by {
            if k < init.len() {
                assert(init[k] == es[k]);
                assert(plan_of(root, es)[k] == plan_of(root, init)[k]);
            }
        }
    }
}

/// A model of the destination tree: each path maps to `None` for a
/// directory or to `Some(bytes)` for a file. A directory step adds the
/// directory when the path is absent; a file step sets the file's bytes.
pub open spec fn apply_step(fs: Map<Seq<char>, Option<Seq<u8>>>, st: (Seq<char>, bool, Seq<u8>)) -> Map<
    Seq<char>,
    Option<Seq<u8>>,
> {
    if st.1 {
        if fs.contains_key(st.0) {
            fs
        } else {
            fs.insert(st.0, None)
        }
    } else {
        fs.insert(st.0, Some(st.2))
    }
}

/// The tree after carrying out the steps of `p` in order.
pub open spec fn apply_plan(fs: Map<Seq<char>, Option<Seq<u8>>>, p: Seq<(Seq<char>, bool, Seq<u8>)>) -> Map<
    Seq<char>,
    Option<Seq<u8>>,
>
    decreases p.len(),
{
    if p.len() == 0 {
        fs
    } else {
        apply_step(apply_plan(fs, p.drop_last()), p.last())
    }
}

spec fn last_write(p: Seq<(Seq<char>, bool, Seq<u8>)>, k: Seq<char>) -> Option<Seq<u8>>
    decreases p.len(),
{
    if p.len() == 0 {
        None
    } else if !p.last().1 && p.last().0 == k {
        Some(p.last().2)
    } else {
        last_write(p.drop_last(), k)
    }
}

spec fn has_dir(p: Seq<(Seq<char>, bool, Seq<u8>)>, k: Seq<char>) -> bool
    decreases p.len(),
{
    if p.len() == 0 {
        false
    } else {
        (p.last().1 && p.last().0 == k) || has_dir(p.drop_last(), k)
    }
}

spec fn node_after(fs: Map<Seq<char>, Option<Seq<u8>>>, p: Seq<(Seq<char>, bool, Seq<u8>)>, k: Seq<char>) -> Option<
    Option<Seq<u8>>,
> {
    match last_write(p, k) {
        Some(d) => Some(Some(d)),
        None => if fs.contains_key(k) {
            Some(fs[k])
        } else if has_dir(p, k) {
            Some(None)
        } else {
            None
        },
    }
}

proof fn lemma_apply_at(fs: Map<Seq<char>, Option<Seq<u8>>>, p: Seq<(Seq<char>, bool, Seq<u8>)>, k: Seq<char>)
    ensures
        apply_plan(fs, p).contains_key(k) == node_after(fs, p, k) is Some,
        apply_plan(fs, p).contains_key(k) ==> apply_plan(fs, p)[k] == node_after(fs, p, k)->0,
    decreases p.len(),
{
    if p.len() > 0 {
        lemma_apply_at(fs, p.drop_last(), k);
    }
}

/// Carrying out the same extraction twice leaves the destination tree as
/// one run left it: every file is rewritten with the bytes it already
/// holds and every directory already exists.
pub proof fn lemma_extraction_idempotent(fs: Map<Seq<char>, Option<Seq<u8>>>, root: Seq<char>, es: Seq<ArchiveEntry>)
    ensures
        apply_plan(apply_plan(fs, plan_of(root, es)), plan_of(root, es)) == apply_plan(fs, plan_of(root, es)),
{
    let p = plan_of(root, es);
    let once = apply_plan(fs, p);
    let twice = apply_plan(once, p);
    assert forall|k: Seq<char>| #[trigger] twice.contains_key(k) == once.contains_key(k) && (once.contains_key(k) ==> twice[k] == once[k]) by {
        lemma_apply_at(fs, p, k);
        lemma_apply_at(once, p, k);
    }
    assert(twice =~= once);
}

} // verus!
