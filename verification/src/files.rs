//! Files read by the application: their name, path and contents, and how a
//! directory listing from the file system overrides the embedded one.

use vstd::prelude::*;
use vstd::string::StringExecFns;
use vstd::utf8::{decode_utf8, valid_utf8};
use crate::text::{chars_of, str_eq, string_from_chars};

verus! {

broadcast use vstd::string::group_string_axioms;

#[verifier::external_type_specification]
#[verifier::external_body]
pub struct ExPathBuf(std::path::PathBuf);

/// A text file that was read: its name, its path where it can be written
/// as text, and its contents.
pub struct FileData {
    pub name: String,
    pub path: Option<String>,
    pub content: String,
}

/// A file's name, path and raw contents.
pub struct FileInfo {
    name: Option<String>,
    path: std::path::PathBuf,
    contents: Vec<u8>,
}

/// The name as a character sequence.
pub open spec fn name_view(name: Option<String>) -> Option<Seq<char>> {
    match name {
        Some(n) => Some(n@),
        None => None,
    }
}

/// Calls `std::str::from_utf8` on `bytes`, and copies the text it gives into
/// a `String`. As the function documents, it succeeds exactly when the bytes
/// are valid UTF-8, and then the text is what they encode.
#[verifier::external_body]
fn utf8_text(bytes: &[u8]) -> (res: Option<String>)
    ensures
        match res {
            Some(s) => valid_utf8(bytes@) && s@ == decode_utf8(bytes@),
            None => !valid_utf8(bytes@),
        },
{
    match std::str::from_utf8(bytes) {
        Ok(s) => Some(s.to_owned()),
        Err(_) => None,
    }
}

impl FileInfo {
    pub closed spec fn spec_name(&self) -> Option<String> {
        self.name
    }

    pub closed spec fn spec_path(&self) -> std::path::PathBuf {
        self.path
    }

    pub closed spec fn spec_contents(&self) -> Seq<u8> {
        self.contents@
    }

    /// A file with the given name, path and contents.
    pub fn new(name: Option<String>, path: std::path::PathBuf, contents: Vec<u8>) -> (r: Self)
        ensures
            r.spec_name() == name,
            r.spec_path() == path,
            r.spec_contents() == contents@,
    {
        FileInfo { name, path, contents }
    }

    /// The file's name, if it has one.
    pub fn get_name(&self) -> (r: &Option<String>)
        ensures
            *r == self.spec_name(),
    {
        &self.name
    }

    /// The file's path.
    pub fn get_path(&self) -> (r: &std::path::PathBuf)
        ensures
            *r == self.spec_path(),
    {
        &self.path
    }

    /// The file's raw contents.
    pub fn get_contents(&self) -> (r: &[u8])
        ensures
            r@ == self.spec_contents(),
    {
        self.contents.as_slice()
    }

    /// The contents as text, or `None` when they are not valid UTF-8.
    pub fn contents_as_string(&self) -> (r: Option<String>)
        ensures
            match r {
                Some(s) => valid_utf8(self.spec_contents()) && s@ == decode_utf8(self.spec_contents()),
                None => !valid_utf8(self.spec_contents()),
            },
    {
        utf8_text(self.contents.as_slice())
    }

    /// The contents as text, or the empty string when they are not valid UTF-8.
    pub fn contents_as_string_or_empty(&self) -> (r: String)
        ensures
            r@ == (if valid_utf8(self.spec_contents()) {
                decode_utf8(self.spec_contents())
            } else {
                Seq::<char>::empty()
            }),
    {
        match self.contents_as_string() {
            Some(s) => s,
            None => String::new(),
        }
    }
}

/// `files` without those named `name`.
pub open spec fn without_name(files: Seq<FileInfo>, name: Seq<char>) -> Seq<FileInfo>
    decreases files.len(),
{
    if files.len() == 0 {
        seq![]
    } else {
        let rest = without_name(files.drop_last(), name);
        if name_view(files.last().spec_name()) == Some(name) {
            rest
        } else {
            rest.push(files.last())
        }
    }
}

/// The listing of a directory that exists both embedded in the application
/// and on the file system: the embedded files, then each file-system file in
/// turn, each first removing the files listed so far that bear its name.
pub open spec fn merged_listing(embedded: Seq<FileInfo>, filesystem: Seq<FileInfo>) -> Seq<FileInfo>
    decreases filesystem.len(),
{
    if filesystem.len() == 0 {
        embedded
    } else {
        let before = merged_listing(embedded, filesystem.drop_last());
        let f = filesystem.last();
        match name_view(f.spec_name()) {
            Some(n) => without_name(before, n).push(f),
            None => before.push(f),
        }
    }
}

/// Whether two optional names are equal.
fn same_name(a: &Option<String>, b: &String) -> (r: bool)
    ensures
        r == (name_view(*a) == Some(b@)),
{
    match a {
        Some(x) => str_eq(x.as_str(), b.as_str()),
        None => false,
    }
}

/// `files` without those named `name`.
fn remove_named(files: Vec<FileInfo>, name: &String) -> (res: Vec<FileInfo>)
    ensures
        res@ == without_name(files@, name@),
{
    let ghost all = files@;
    let mut kept: Vec<FileInfo> = Vec::new();
    for f in it: files.into_iter()
        invariant
            all == it.seq(),
            kept@ == without_name(it.seq().take(it.index() as int), name@),
    {
        let ghost i = it.index() as int;
        assert(all.take(i + 1).drop_last() =~= all.take(i));
        assert(all.take(i + 1).last() == f);
        if !same_name(&f.name, name) {
            kept.push(f);
        }
    }
    assert(all.take(all.len() as int) =~= all);
    kept
}

/// The listing of a directory from its embedded files and its file-system
/// files: a file on the file system replaces the embedded files, and the
/// file-system files read before it, that have its name.
pub fn merge_listings(embedded: Vec<FileInfo>, filesystem: Vec<FileInfo>) -> (res: Vec<FileInfo>)
    ensures
        res@ == merged_listing(embedded@, filesystem@),
{
    let ghost em = embedded@;
    let ghost all = filesystem@;
    let mut files = embedded;
    for f in it: filesystem.into_iter()
        invariant
            all == it.seq(),
            files@ == merged_listing(em, it.seq().take(it.index() as int)),
    {
        let ghost i = it.index() as int;
        assert(all.take(i + 1).drop_last() =~= all.take(i));
        assert(all.take(i + 1).last() == f);
        match &f.name {
            Some(name) => {
                files = remove_named(files, name);
            },
            None => {},
        }
        files.push(f);
    }
    assert(all.take(all.len() as int) =~= all);
    files
}

/// `s` with every leading repetition of `p` removed, as
/// `str::trim_start_matches` does with a string pattern.
pub open spec fn strip_leading(s: Seq<char>, p: Seq<char>) -> Seq<char>
    decreases s.len(),
{
    if p.len() > 0 && p.len() <= s.len() && s.take(p.len() as int) == p {
        strip_leading(s.skip(p.len() as int), p)
    } else {
        s
    }
}

/// The key under which a path is looked up among the embedded files: the
/// path without leading `./`, then `.\`, then `data/`.
pub open spec fn embedded_key_of(path: Seq<char>) -> Seq<char> {
    strip_leading(strip_leading(strip_leading(path, "./"@), ".\\"@), "data/"@)
}

fn strip_leading_chars(s: &[char], p: &[char]) -> (res: Vec<char>)
    ensures
        res@ == strip_leading(s@, p@),
{
    let n = s.len();
    let m = p.len();
    let mut start: usize = 0;
    assert(s@.skip(0) =~= s@);
    if m > 0 {
        loop
            invariant
                n == s@.len(),
                m == p@.len(),
                m > 0,
                start <= n,
                strip_leading(s@, p@) == strip_leading(s@.skip(start as int), p@),
            ensures
                start <= n,
                strip_leading(s@, p@) == s@.skip(start as int),
            decreases n - start,
        {
            if m > n - start {
                assert(strip_leading(s@.skip(start as int), p@) == s@.skip(start as int));
                break;
            }
            let mut k: usize = 0;
            let mut matches = true;
            while k < m
                invariant
                    m == p@.len(),
                    start + m <= n == s@.len(),
                    k <= m,
                    matches == (forall|q: int| 0 <= q < k ==> s@[start + q] == p@[q]),
                decreases m - k,
            {
                if s[start + k] != p[k] {
                    matches = false;
                }
                k = k + 1;
            }
            let ghost rest = s@.skip(start as int);
            if matches {
                assert(rest.take(m as int) =~= p@);
                assert(rest.skip(m as int) =~= s@.skip(start + m));
                start = start + m;
            } else {
                assert(rest.take(m as int) != p@) by {
                    let q = choose|q: int| 0 <= q < m && s@[start + q] != p@[q];
                    assert(rest.take(m as int)[q] == s@[start + q]);
                }
                assert(strip_leading(rest, p@) == rest);
                break;
            }
        }
    }
    let mut out: Vec<char> = Vec::new();
    let mut k: usize = start;
    while k < n
        invariant
            start <= k <= n == s@.len(),
            out@ == s@.subrange(start as int, k as int),
        decreases n - k,
    {
        out.push(s[k]);
        k = k + 1;
        assert(out@ =~= s@.subrange(start as int, k as int));
    }
    assert(out@ =~= s@.skip(start as int));
    out
}

/// The key under which `path` is looked up among the files embedded in the
/// application: the path without its leading `./`, `.\\` and `data/` parts.
pub fn embedded_key(path: &str) -> (res: String)
    ensures
        res@ == embedded_key_of(path@),
{
    let cs = chars_of(path);
    let a = strip_leading_chars(cs.as_slice(), chars_of("./").as_slice());
    let b = strip_leading_chars(a.as_slice(), chars_of(".\\").as_slice());
    let c = strip_leading_chars(b.as_slice(), chars_of("data/").as_slice());
    string_from_chars(c.as_slice())
}

/// What removing a name keeps: files of the list, none of them bearing the name.
pub proof fn lemma_without_name(files: Seq<FileInfo>, name: Seq<char>)
    ensures
        forall|i: int|
            0 <= i < without_name(files, name).len() ==> files.contains(#[trigger] without_name(files, name)[i])
                && name_view(without_name(files, name)[i].spec_name()) != Some(name),
    decreases files.len(),
{
    if files.len() > 0 {
        let init = files.drop_last();
        lemma_without_name(init, name);
        let w = without_name(files, name);
        let w0 = without_name(init, name);
        assert forall|i: int| 0 <= i < w.len() implies files.contains(#[trigger] w[i]) && name_view(
            w[i].spec_name(),
        ) != Some(name) by {
            if i < w0.len() {
                assert(w[i] == w0[i]);
                assert(init.contains(w0[i]));
                let j = choose|j: int| 0 <= j < init.len() && init[j] == w0[i];
                assert(files[j] == init[j]);
            } else {
                assert(w[i] == files.last());
                assert(files[files.len() - 1] == files.last());
            }
        }
    }
}

/// A file-system file replaces every file listed before it that has its
/// name: a file of the merged listing that shares its name with file-system
/// file `j` is file `j` or a later file-system file. The last file-system
/// file ends the listing, and every file listed comes from one of the two
/// lists.
pub proof fn lemma_filesystem_overrides(embedded: Seq<FileInfo>, filesystem: Seq<FileInfo>)
    ensures
        forall|i: int, j: int|
            0 <= i < merged_listing(embedded, filesystem).len() && 0 <= j < filesystem.len()
                && name_view(filesystem[j].spec_name()) is Some
                && name_view((#[trigger] merged_listing(embedded, filesystem)[i]).spec_name()) == name_view(
                (#[trigger] filesystem[j]).spec_name(),
            ) ==> exists|k: int| j <= k < filesystem.len() && merged_listing(embedded, filesystem)[i] == filesystem[k],
        filesystem.len() > 0 ==> merged_listing(embedded, filesystem).last() == filesystem.last(),
        forall|i: int|
            0 <= i < merged_listing(embedded, filesystem).len() ==> embedded.contains(
                #[trigger] merged_listing(embedded, filesystem)[i],
            ) || filesystem.contains(merged_listing(embedded, filesystem)[i]),
    decreases filesystem.len(),
{
    if filesystem.len() > 0 {
        let init = filesystem.drop_last();
        let f = filesystem.last();
        let last = filesystem.len() - 1;
        assert(filesystem[last] == f);
        lemma_filesystem_overrides(embedded, init);
        let before = merged_listing(embedded, init);
        let kept = match name_view(f.spec_name()) {
            Some(n) => without_name(before, n),
            None => before,
        };
        match name_view(f.spec_name()) {
            Some(n) => lemma_without_name(before, n),
            None => {},
        }
        let m = merged_listing(embedded, filesystem);
        assert(m == kept.push(f));
        assert forall|i: int| 0 <= i < m.len() && kept.len() > i implies before.contains(#[trigger] m[i]) by {
            assert(m[i] == kept[i]);
        }
        assert forall|i: int, j: int|
            0 <= i < m.len() && 0 <= j < filesystem.len() && name_view(filesystem[j].spec_name()) is Some
                && name_view((#[trigger] m[i]).spec_name()) == name_view((#[trigger] filesystem[j]).spec_name())
            implies exists|k: int| j <= k < filesystem.len() && m[i] == filesystem[k] by {
            if i == kept.len() {
                assert(m[i] == filesystem[last]);
            } else {
                assert(before.contains(m[i]));
                let p = choose|p: int| 0 <= p < before.len() && before[p] == m[i];
                if j == last {
                    assert(m[i] == kept[i]);
                    assert(false);
                } else {
                    assert(filesystem[j] == init[j]);
                    assert(before[p] == m[i]);
                    assert(name_view(before[p].spec_name()) == name_view(init[j].spec_name()));
                    let k = choose|k: int| j <= k < init.len() && before[p] == init[k];
                    assert(filesystem[k] == init[k]);
                }
            }
        }
        assert forall|i: int| 0 <= i < m.len() implies embedded.contains(#[trigger] m[i]) || filesystem.contains(
            m[i],
        ) by {
            if i == kept.len() {
                assert(m[i] == filesystem[last]);
            } else {
                assert(before.contains(m[i]));
                let p = choose|p: int| 0 <= p < before.len() && before[p] == m[i];
                assert(embedded.contains(before[p]) || init.contains(before[p]));
                if init.contains(before[p]) {
                    let q = choose|q: int| 0 <= q < init.len() && init[q] == before[p];
                    assert(filesystem[q] == init[q]);
                }
            }
        }
    }
}

/// Whether the path with components `full` lies inside the directory with
/// components `base`: its first components are those of `base`, whole
/// component by whole component.
pub open spec fn within_base(base: Seq<Seq<u8>>, full: Seq<Seq<u8>>) -> bool {
    base.len() <= full.len() && forall|i: int| 0 <= i < base.len() ==> #[trigger] base[i] == full[i]
}

pub open spec fn components_view(cs: Seq<Vec<u8>>) -> Seq<Seq<u8>> {
    cs.map_values(|c: Vec<u8>| c@)
}

/// Whether a file that was asked for relative to the directory `base` (both
/// paths canonical, given by their components) lies inside it; a path that
/// leaves it is refused as a traversal attempt.
pub fn is_within_base(base: &[Vec<u8>], full: &[Vec<u8>]) -> (r: bool)
    ensures
        r == within_base(components_view(base@), components_view(full@)),
{
    if base.len() > full.len() {
        return false;
    }
    let mut i: usize = 0;
    while i < base.len()
        invariant
            i <= base@.len() <= full@.len(),
            forall|k: int| 0 <= k < i ==> #[trigger] base@[k]@ == full@[k]@,
        decreases base@.len() - i,
    {
        let a = &base[i];
        let b = &full[i];
        if a.len() != b.len() {
            assert(components_view(base@)[i as int] != components_view(full@)[i as int]);
            return false;
        }
        let mut j: usize = 0;
        while j < a.len()
            invariant
                j <= a@.len() == b@.len(),
                i < base@.len() <= full@.len(),
                *a == base@[i as int],
                *b == full@[i as int],
                forall|m: int| 0 <= m < j ==> a@[m] == b@[m],
            decreases a@.len() - j,
        {
            if a[j] != b[j] {
                assert(components_view(base@)[i as int][j as int] != components_view(full@)[i as int][j as int]);
                return false;
            }
            j = j + 1;
        }
        assert(a@ =~= b@);
        i = i + 1;
    }
    assert forall|k: int| 0 <= k < base@.len() implies #[trigger] components_view(base@)[k] == components_view(full@)[k] by {
        assert(base@[k]@ == full@[k]@);
    }
    true
}

/// The directory itself and every path below it are inside it; its parent
/// is not, and neither is any path that differs in one of its components.
pub proof fn lemma_inside_and_outside(base: Seq<Seq<u8>>, rest: Seq<Seq<u8>>, other: Seq<Seq<u8>>, i: int)
    requires
        0 <= i < base.len(),
        other.len() >= base.len(),
        other[i] != base[i],
    ensures
        within_base(base, base),
        within_base(base, base + rest),
        !within_base(base, base.drop_last()),
        !within_base(base, other),
{
}

} // verus!
