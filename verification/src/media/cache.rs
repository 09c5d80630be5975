//! Content-addressed cache for built media images.
//!
//! Images are keyed by a digest over the source folder's contents plus the
//! media kind and label, so unchanged folders never rebuild.

use vstd::prelude::*;
use vstd::slice::slice_subrange;
use vstd::utf8::encode_utf8;

use crate::config::model::MediaKind;
use crate::encode::{hex_encode, hex_text, sha256, sha256_of};
use crate::media::hash::{
    append, by_path, distinct_paths, folder_digest, lemma_no_zero, lemma_terminated,
    same_tree, same_tree_same_digest, tree_bytes, Entry, EntryView,
};
use crate::text::{
    any_string, cat3, decimal, decimal_string, file_name, file_name_of, join_path, path_join,
};

verus! {

/// Content-addressed store of built ISO/floppy images.
#[derive(Debug)]
pub struct MediaCache {
    cache_dir: String,
}

impl View for MediaCache {
    type V = Seq<char>;

    /// The folder of the cache.
    closed spec fn view(&self) -> Seq<char> {
        self.cache_dir@
    }
}

/// The word for a kind of image in the key.
pub open spec fn kind_tag(kind: MediaKind) -> Seq<char> {
    match kind {
        MediaKind::Iso => "iso"@,
        MediaKind::Floppy => "floppy"@,
    }
}

/// The file extension of a kind of image.
pub open spec fn kind_extension(kind: MediaKind) -> Seq<char> {
    match kind {
        MediaKind::Iso => "iso"@,
        MediaKind::Floppy => "img"@,
    }
}

/// The bytes by which an image is keyed.
pub open spec fn key_bytes(kind: MediaKind, label: Seq<char>, folder: Seq<u8>) -> Seq<u8> {
    encode_utf8(kind_tag(kind)) + seq![0u8] + encode_utf8(label) + seq![0u8] + folder
}

/// The label of an image, or nothing.
pub open spec fn label_text(label: Option<Seq<char>>) -> Seq<char> {
    match label {
        Some(l) => l,
        None => Seq::empty(),
    }
}

/// The file name of an image in the cache.
pub open spec fn entry_name_of(kind: MediaKind, label: Option<Seq<char>>, folder: Seq<u8>) -> Seq<
    char,
> {
    hex_text(sha256(key_bytes(kind, label_text(label), folder)).take(8)) + "."@ + kind_extension(
        kind,
    )
}

/// Cache entry file name: 16 hex characters of a digest over kind, label, and
/// folder contents, plus the kind's extension.
pub fn entry_name(kind: MediaKind, label: Option<&str>, folder: &Vec<u8>) -> (r: String)
    ensures
        r@ == entry_name_of(
            kind,
            match label {
                Some(l) => Some(l@),
                None => None,
            },
            folder@,
        ),
{
    let (tag, ext) = match kind {
        MediaKind::Iso => ("iso", "iso"),
        MediaKind::Floppy => ("floppy", "img"),
    };
    let text = match label {
        Some(l) => l,
        None => "",
    };
    proof {
        reveal_strlit("");
        assert(label is None ==> text@ =~= Seq::empty());
    }
    let mut bytes: Vec<u8> = tag.as_bytes_vec();
    bytes.push(0u8);
    append(&mut bytes, &text.as_bytes_vec());
    bytes.push(0u8);
    append(&mut bytes, folder);
    assert(bytes@ =~= key_bytes(kind, text@, folder@));
    let digest = sha256_of(bytes.as_slice());
    let head = slice_subrange(digest.as_slice(), 0, 8);
    assert(head@ =~= digest@.take(8));
    cat3(hex_encode(head).as_str(), ".", ext)
}

/// Whether a file in the cache is one of those that are kept.
pub open spec fn is_kept(name: Seq<char>, keep: Seq<Seq<char>>) -> bool {
    exists|i: int| 0 <= i < keep.len() && file_name_of(#[trigger] keep[i]) == Some(name)
}

/// The files of the cache that go.
pub open spec fn stale_of(dir: Seq<char>, files: Seq<Seq<char>>, keep: Seq<Seq<char>>) -> Seq<
    Seq<char>,
>
    decreases files.len(),
{
    if files.len() == 0 {
        Seq::empty()
    } else {
        let front = stale_of(dir, files.drop_last(), keep);
        if is_kept(files.last(), keep) {
            front
        } else {
            front.push(path_join(dir, files.last()))
        }
    }
}

/// The file name under which an image is built.
pub open spec fn temporary_name(pid: u32, name: Seq<char>) -> Seq<char> {
    ".tmp-"@ + decimal(pid as nat) + "-"@ + name
}

impl MediaCache {
    /// A cache rooted at `cache_dir`.
    pub fn new(cache_dir: String) -> (r: Self)
        ensures
            r@ == cache_dir@,
    {
        MediaCache { cache_dir }
    }

    /// The directory this cache stores images in.
    pub fn dir(&self) -> (r: &str)
        ensures
            r@ == self@,
    {
        self.cache_dir.as_str()
    }

    /// The path of the image of a folder with these entries. It is built only
    /// if nothing stands there.
    pub fn ensure(&self, kind: MediaKind, entries: &Vec<Entry>, label: Option<&str>) -> (r: String)
        ensures
            r@ == path_join(
                self@,
                entry_name_of(
                    kind,
                    match label {
                        Some(l) => Some(l@),
                        None => None,
                    },
                    sha256(tree_bytes(by_path(entries.deep_view()))),
                ),
            ),
    {
        let digest = folder_digest(entries);
        join_path(self.cache_dir.as_str(), entry_name(kind, label, &digest).as_str())
    }

    /// Where the image of this file name is built before it is moved into
    /// place.
    pub fn temporary(&self, pid: u32, name: &str) -> (r: String)
        ensures
            r@ == path_join(self@, temporary_name(pid, name@)),
    {
        let number = decimal_string(pid as u64);
        let mut t = cat3(".tmp-", number.as_str(), "-");
        t.append(name);
        join_path(self.cache_dir.as_str(), t.as_str())
    }

    /// The cache entries to delete: those whose names are not of a path in
    /// `keep`. `files` are the names of the files in the cache.
    pub fn gc(&self, files: &Vec<String>, keep: &Vec<String>) -> (r: Vec<String>)
        ensures
            r.deep_view() == stale_of(self@, files.deep_view(), keep.deep_view()),
    {
        let ghost kept = keep.deep_view();
        let mut names: Vec<String> = Vec::new();
        let mut i: usize = 0;
        while i < keep.len()
            invariant
                i <= keep@.len(),
                kept == keep.deep_view(),
                kept.len() == keep@.len(),
                forall|n: Seq<char>| #[trigger]
                    names.deep_view().contains(n) <==> is_kept(n, kept.take(i as int)),
            decreases keep@.len() - i,
        {
            let ghost had = names.deep_view();
            let ghost now = kept.take(i as int + 1);
            let ghost was = kept.take(i as int);
            let name = file_name(keep[i].as_str());
            assert(kept[i as int] == keep@[i as int]@);
            let ghost found = name.deep_view();
            if let Some(n) = name {
                names.push(n);
                assert(names.deep_view() =~= had.push(found->0));
            }
            proof {
                assert forall|n: Seq<char>| #[trigger]
                    names.deep_view().contains(n) <==> is_kept(n, now) by {
                    if names.deep_view().contains(n) {
                        let k = choose|k: int|
                            0 <= k < names.deep_view().len() && names.deep_view()[k] == n;
                        if k < had.len() {
                            assert(had[k] == n);
                            assert(had.contains(n));
                            assert(is_kept(n, was));
                            let j = choose|j: int|
                                0 <= j < was.len() && file_name_of(#[trigger] was[j]) == Some(n);
                            assert(now[j] == was[j]);
                        } else {
                            assert(now[i as int] == kept[i as int]);
                        }
                    }
                    if is_kept(n, now) {
                        let j = choose|j: int|
                            0 <= j < now.len() && file_name_of(#[trigger] now[j]) == Some(n);
                        if j < i {
                            assert(was[j] == now[j]);
                            assert(had.contains(n));
                            let k = choose|k: int| 0 <= k < had.len() && had[k] == n;
                            assert(names.deep_view()[k] == n);
                        } else {
                            assert(names.deep_view()[had.len() as int] == n);
                        }
                    }
                }
            }
            i = i + 1;
        }
        assert(kept.take(i as int) =~= kept);
        let ghost all = files.deep_view();
        let mut out: Vec<String> = Vec::new();
        let mut k: usize = 0;
        assert(all.take(0) =~= Seq::empty());
        assert(out.deep_view() =~= Seq::empty());
        while k < files.len()
            invariant
                k <= files@.len(),
                all == files.deep_view(),
                all.len() == files@.len(),
                forall|n: Seq<char>| #[trigger]
                    names.deep_view().contains(n) <==> is_kept(n, kept),
                out.deep_view() == stale_of(self@, all.take(k as int), kept),
            decreases files@.len() - k,
        {
            proof {
                let t = all.take(k as int + 1);
                assert(t.drop_last() =~= all.take(k as int));
                assert(t.last() == files@[k as int]@);
            }
            let ghost had = out.deep_view();
            if !any_string(&names, files[k].as_str()) {
                let path = join_path(self.cache_dir.as_str(), files[k].as_str());
                let ghost text = path@;
                out.push(path);
                assert(out.deep_view() =~= had.push(text));
            }
            k = k + 1;
        }
        assert(all.take(k as int) =~= all);
        out
    }
}

// -- laws ------------------------------------------------------------------------------------

/// Kind, label and folder contents are all part of the key: images that differ
/// in one of them are keyed by different bytes.
pub proof fn different_images_differ(
    kind: MediaKind,
    label: Seq<char>,
    folder: Seq<u8>,
    other_kind: MediaKind,
    other_label: Seq<char>,
    other_folder: Seq<u8>,
)
    requires
        !label.contains('\0'),
        !other_label.contains('\0'),
        kind != other_kind || label != other_label || folder != other_folder,
    ensures
        key_bytes(kind, label, folder) != key_bytes(other_kind, other_label, other_folder),
{
    let a = key_bytes(kind, label, folder);
    let b = key_bytes(other_kind, other_label, other_folder);
    if a == b {
        reveal_strlit("iso");
        reveal_strlit("floppy");
        assert(!kind_tag(kind).contains('\0'));
        assert(!kind_tag(other_kind).contains('\0'));
        lemma_no_zero(kind_tag(kind));
        lemma_no_zero(kind_tag(other_kind));
        lemma_no_zero(label);
        lemma_no_zero(other_label);
        let x = encode_utf8(label) + seq![0u8] + folder;
        let y = encode_utf8(other_label) + seq![0u8] + other_folder;
        assert(a =~= encode_utf8(kind_tag(kind)) + seq![0u8] + x);
        assert(b =~= encode_utf8(kind_tag(other_kind)) + seq![0u8] + y);
        lemma_terminated(encode_utf8(kind_tag(kind)), encode_utf8(kind_tag(other_kind)), x, y);
        lemma_terminated(encode_utf8(label), encode_utf8(other_label), folder, other_folder);
        vstd::utf8::encode_utf8_decode_utf8(kind_tag(kind));
        vstd::utf8::encode_utf8_decode_utf8(kind_tag(other_kind));
        vstd::utf8::encode_utf8_decode_utf8(label);
        vstd::utf8::encode_utf8_decode_utf8(other_label);
        assert(kind_tag(kind).len() == kind_tag(other_kind).len());
    }
}

/// A folder whose tree is unchanged keeps its image: the same kind and label
/// give the same file name, in whatever order the folder is walked.
pub proof fn unchanged_folder_keeps_its_image(
    kind: MediaKind,
    label: Option<Seq<char>>,
    a: Seq<EntryView>,
    b: Seq<EntryView>,
)
    requires
        distinct_paths(a),
        distinct_paths(b),
        same_tree(a, b),
    ensures
        entry_name_of(kind, label, sha256(tree_bytes(by_path(a)))) == entry_name_of(
            kind,
            label,
            sha256(tree_bytes(by_path(b))),
        ),
{
    same_tree_same_digest(a, b);
}

/// An image that is being built is never taken for a finished one: no image
/// has the file name of a temporary one.
pub proof fn temporary_is_no_image(
    pid: u32,
    name: Seq<char>,
    kind: MediaKind,
    label: Option<Seq<char>>,
    folder: Seq<u8>,
)
    ensures
        temporary_name(pid, name) != entry_name_of(kind, label, folder),
{
    let t = temporary_name(pid, name);
    let e = entry_name_of(kind, label, folder);
    let digest = sha256(key_bytes(kind, label_text(label), folder)).take(8);
    reveal_strlit(".tmp-");
    reveal_strlit(".");
    reveal_strlit("iso");
    reveal_strlit("img");
    assert(t[0] == '.' && t[1] == 't');
    lemma_hex_start(digest);
    if hex_text(digest).len() > 0 {
        assert(e[0] == hex_text(digest)[0]);
    } else {
        assert(e[1] == 'i');
    }
}

proof fn lemma_hex_start(data: Seq<u8>)
    ensures
        hex_text(data).len() > 0 ==> hex_text(data)[0] != '.',
    decreases data.len(),
{
    if data.len() > 0 {
        let front = hex_text(data.drop_last());
        lemma_hex_start(data.drop_last());
        if front.len() > 0 {
            assert(hex_text(data)[0] == front[0]);
        } else {
            assert(hex_text(data)[0] == crate::config::model::hex_pair(data.last())[0]);
        }
    }
}

/// Clearing the cache deletes exactly the files in it that no path to be kept
/// names: an image that is still in use stays, and one that is not goes.
pub proof fn only_unused_images_go(
    cache: &MediaCache,
    files: &Vec<String>,
    keep: &Vec<String>,
    r: Vec<String>,
    i: int,
    k: int,
)
    requires
        call_ensures(MediaCache::gc, (cache, files, keep), r),
    ensures
        ({
            let used = |name: Seq<char>|
                exists|j: int|
                    0 <= j < keep@.len() && file_name_of((#[trigger] keep@[j])@) == Some(name);
            &&& 0 <= i < files@.len() && !used(files@[i]@) ==> r.deep_view().contains(
                path_join(cache@, files@[i]@),
            )
            &&& 0 <= k < r@.len() ==> exists|n: int|
                0 <= n < files@.len() && r@[k]@ == path_join(
                    cache@,
                    (#[trigger] files@[n])@,
                ) && !used(files@[n]@)
        }),
{
    let all = files.deep_view();
    let kept = keep.deep_view();
    assert forall|name: Seq<char>| #[trigger] is_kept(name, kept) <==> exists|j: int|
        0 <= j < keep@.len() && file_name_of((#[trigger] keep@[j])@) == Some(name) by {
        if is_kept(name, kept) {
            let j = choose|j: int|
                0 <= j < kept.len() && file_name_of(#[trigger] kept[j]) == Some(name);
            assert(kept[j] == keep@[j]@);
        }
        if exists|j: int| 0 <= j < keep@.len() && file_name_of((#[trigger] keep@[j])@) == Some(name) {
            let j = choose|j: int|
                0 <= j < keep@.len() && file_name_of((#[trigger] keep@[j])@) == Some(name);
            assert(kept[j] == keep@[j]@);
        }
    }
    if 0 <= i < files@.len() {
        assert(all[i] == files@[i]@);
        lemma_stale(cache@, all, kept, i);
        assert(is_kept(all[i], kept) || r.deep_view().contains(path_join(cache@, files@[i]@)));
    }
    if 0 <= k < r@.len() {
        assert(r.deep_view()[k] == r@[k]@);
        let n = lemma_stale_only(cache@, all, kept, k);
        assert(all[n] == files@[n]@);
        assert(!is_kept(all[n], kept));
    }
}

proof fn lemma_stale(dir: Seq<char>, files: Seq<Seq<char>>, keep: Seq<Seq<char>>, i: int)
    requires
        0 <= i < files.len(),
    ensures
        !is_kept(files[i], keep) ==> stale_of(dir, files, keep).contains(path_join(dir, files[i])),
    decreases files.len(),
{
    if !is_kept(files[i], keep) {
        let front = stale_of(dir, files.drop_last(), keep);
        let x = path_join(dir, files.last());
        if i < files.len() - 1 {
            lemma_stale(dir, files.drop_last(), keep, i);
            let p = path_join(dir, files[i]);
            let k = choose|k: int| 0 <= k < front.len() && front[k] == p;
            assert(front.push(x)[k] == p);
        } else {
            assert(front.push(x)[front.len() as int] == x);
        }
    }
}

proof fn lemma_stale_only(
    dir: Seq<char>,
    files: Seq<Seq<char>>,
    keep: Seq<Seq<char>>,
    k: int,
) -> (n: int)
    requires
        0 <= k < stale_of(dir, files, keep).len(),
    ensures
        0 <= n < files.len(),
        stale_of(dir, files, keep)[k] == path_join(dir, files[n]),
        !is_kept(files[n], keep),
    decreases files.len(),
{
    let front = stale_of(dir, files.drop_last(), keep);
    if k < front.len() {
        lemma_stale_only(dir, files.drop_last(), keep, k)
    } else {
        files.len() - 1
    }
}

} // verus!
