//! Floppy images from folders: a blank 1.44 MB image that is formatted and
//! filled.

use vstd::prelude::*;
use vstd::utf8::encode_utf8;

use crate::text::{
    cat3, cat5, cat7, chars_of, decimal, decimal_string, push_char, quoted, quoted_text,
    sort_strings, text_sorted, trim, trimmed_end, trimmed_start,
};

verus! {

/// FAT12 sector / cluster size on a 1.44 MB floppy.
pub const SECTOR: u64 = 512;

/// Raw size of a 1.44 MB floppy image: 2880 sectors of 512 bytes.
pub const FLOPPY_IMAGE_BYTES: u64 = 1_474_560;

/// Usable data area: 2880 sectors minus 1 boot sector, two 9-sector FATs, and
/// the 14-sector root directory.
pub const FLOPPY_DATA_BYTES: u64 = 1_457_664;

/// Maximum FAT volume label length.
pub const FLOPPY_LABEL_MAX: usize = 11;

/// Something below a folder.
#[derive(Debug, Clone, Copy, PartialEq, Eq, Structural)]
pub enum Item {
    Dir,
    /// A file of this many bytes.
    File(u64),
}

/// What something below a folder takes on a floppy: whole clusters, and one for
/// a folder's entries.
pub open spec fn item_bytes(i: Item) -> nat {
    match i {
        Item::Dir => SECTOR as nat,
        Item::File(len) => (((len + SECTOR - 1) / SECTOR as int) * SECTOR) as nat,
    }
}

/// What everything below a folder takes on a floppy.
pub open spec fn cluster_bytes(items: Seq<Item>) -> nat
    decreases items.len(),
{
    if items.len() == 0 {
        0
    } else {
        cluster_bytes(items.drop_last()) + item_bytes(items.last())
    }
}

proof fn lemma_cluster_bytes_grow(items: Seq<Item>, i: int)
    requires
        0 <= i <= items.len(),
    ensures
        cluster_bytes(items.take(i)) <= cluster_bytes(items),
    decreases items.len() - i,
{
    if i < items.len() {
        lemma_cluster_bytes_grow(items, i + 1);
        assert(items.take(i + 1).drop_last() =~= items.take(i));
    } else {
        assert(items.take(i) =~= items);
    }
}

/// Cluster-rounded bytes consumed by everything below a folder.
pub fn dir_cluster_bytes(items: &Vec<Item>) -> (r: u64)
    requires
        cluster_bytes(items@) <= u64::MAX,
    ensures
        r == cluster_bytes(items@),
{
    let mut total: u64 = 0;
    let mut i: usize = 0;
    assert(items@.take(0) =~= Seq::empty());
    while i < items.len()
        invariant
            i <= items@.len(),
            cluster_bytes(items@) <= u64::MAX,
            total == cluster_bytes(items@.take(i as int)),
        decreases items@.len() - i,
    {
        proof {
            lemma_cluster_bytes_grow(items@, i + 1);
            assert(items@.take(i + 1).drop_last() =~= items@.take(i as int));
            assert(items@.take(i + 1).last() == items@[i as int]);
        }
        match items[i] {
            Item::Dir => {
                total = total + SECTOR;
            },
            Item::File(len) => {
                let whole: u64 = len / SECTOR;
                let over: u64 = len % SECTOR;
                let clusters: u64 = if over == 0 {
                    whole
                } else {
                    whole + 1
                };
                assert(clusters == (len + SECTOR - 1) / SECTOR as int);
                total = total + clusters * SECTOR;
            },
        }
        i = i + 1;
    }
    assert(items@.take(i as int) =~= items@);
    total
}

/// What is said of a folder that does not fit on a floppy.
pub open spec fn over_capacity(src: Seq<char>, used: nat) -> Seq<char> {
    "contents of "@ + src + " need "@ + decimal(used)
        + " bytes after FAT12 cluster rounding, but a 1.44MB floppy holds "@ + decimal(
        FLOPPY_DATA_BYTES as nat,
    ) + " bytes: "@ + decimal((used - FLOPPY_DATA_BYTES) as nat) + " bytes over capacity"@
}

/// Errors if the contents of a folder cannot fit the floppy's FAT12 data area,
/// reporting the overage.
pub fn check_capacity(src: &str, items: &Vec<Item>) -> (r: Result<(), String>)
    requires
        cluster_bytes(items@) <= u64::MAX,
    ensures
        r is Ok <==> cluster_bytes(items@) <= FLOPPY_DATA_BYTES,
        r matches Err(e) ==> e@ == over_capacity(src@, cluster_bytes(items@)),
{
    let used: u64 = dir_cluster_bytes(items);
    if used <= FLOPPY_DATA_BYTES {
        return Ok(());
    }
    let n = decimal_string(used);
    let cap = decimal_string(FLOPPY_DATA_BYTES);
    let over = decimal_string(used - FLOPPY_DATA_BYTES);
    let mut s = cat7(
        "contents of ",
        src,
        " need ",
        n.as_str(),
        " bytes after FAT12 cluster rounding, but a 1.44MB floppy holds ",
        cap.as_str(),
        " bytes: ",
    );
    s.append(over.as_str());
    s.append(" bytes over capacity");
    Err(s)
}

/// A character in upper case, where it is an ASCII letter.
pub open spec fn upper(c: char) -> char {
    if 'a' <= c <= 'z' {
        (c as u32 - 32) as char
    } else {
        c
    }
}

/// A character that a floppy label can hold.
pub open spec fn floppy_char(c: char) -> bool {
    'A' <= c <= 'Z' || '0' <= c <= '9' || c == ' ' || c == '_' || c == '-'
}

/// A floppy label in upper case.
pub open spec fn upper_text(s: Seq<char>) -> Seq<char> {
    Seq::new(s.len(), |i: int| upper(s[i]))
}

/// What a floppy label is written as, or what is wrong with it.
pub open spec fn floppy_label(label: Seq<char>) -> Result<Seq<char>, Seq<char>> {
    let n = encode_utf8(label).len();
    if label.len() == 0 {
        Err("floppy label must not be empty"@)
    } else if n > FLOPPY_LABEL_MAX {
        Err(
            "floppy label "@ + quoted_text(label) + " is "@ + decimal(n)
                + " characters; the maximum is "@ + decimal(FLOPPY_LABEL_MAX as nat),
        )
    } else if !(forall|i: int|
        0 <= i < label.len() ==> floppy_char(#[trigger] upper_text(label)[i])) {
        Err(
            "floppy label "@ + quoted_text(label)
                + " contains invalid characters: use A-Z, 0-9, space, '_', '-'"@,
        )
    } else {
        Ok(upper_text(label))
    }
}

fn to_upper(c: char) -> (r: char)
    ensures
        r == upper(c),
{
    if 'a' <= c && c <= 'z' {
        let b: u8 = (c as u8) - 32;
        b as char
    } else {
        c
    }
}

/// Validates a FAT volume label: at most 11 bytes, uppercased, from a
/// conservative character set. Returns the uppercased label.
pub fn validate_floppy_label(label: &str) -> (r: Result<String, String>)
    ensures
        match r {
            Ok(s) => floppy_label(label@) == Ok::<Seq<char>, Seq<char>>(s@),
            Err(e) => floppy_label(label@) == Err::<Seq<char>, Seq<char>>(e@),
        },
{
    let c = chars_of(label);
    if c.len() == 0 {
        return Err("floppy label must not be empty".to_owned());
    }
    let bytes = label.as_bytes_vec();
    let n: usize = bytes.len();
    let shown = quoted(label);
    if n > FLOPPY_LABEL_MAX {
        let count = decimal_string(n as u64);
        let most = decimal_string(FLOPPY_LABEL_MAX as u64);
        let mut s = cat5(
            "floppy label ",
            shown.as_str(),
            " is ",
            count.as_str(),
            " characters; the maximum is ",
        );
        s.append(most.as_str());
        return Err(s);
    }
    let mut out = String::new();
    let mut i: usize = 0;
    while i < c.len()
        invariant
            i <= c@.len(),
            c@ == label@,
            out@ == upper_text(label@).take(i as int),
            forall|j: int| 0 <= j < i ==> floppy_char(#[trigger] upper_text(label@)[j]),
            n == encode_utf8(label@).len(),
            n <= FLOPPY_LABEL_MAX,
            shown@ == quoted_text(label@),
        decreases c@.len() - i,
    {
        let u = to_upper(c[i]);
        assert(u == upper_text(label@)[i as int]);
        if !(('A' <= u && u <= 'Z') || ('0' <= u && u <= '9') || u == ' ' || u == '_' || u
            == '-') {
            return Err(
                cat3(
                    "floppy label ",
                    shown.as_str(),
                    " contains invalid characters: use A-Z, 0-9, space, '_', '-'",
                ),
            );
        }
        push_char(&mut out, u);
        assert(upper_text(label@).take(i as int).push(u) =~= upper_text(label@).take(i + 1));
        i = i + 1;
    }
    assert(upper_text(label@).take(i as int) =~= upper_text(label@));
    Ok(out)
}

/// The arguments of the tools that make a floppy.
#[derive(Debug)]
pub struct FloppyPlan {
    /// What `mformat` is given.
    pub format: Vec<String>,
    /// What `mcopy` is given, where there is anything to copy.
    pub copy: Option<Vec<String>>,
}

/// What `mformat` is given.
pub open spec fn format_args(out: Seq<char>, label: Option<Seq<char>>) -> Seq<Seq<char>> {
    let head = seq!["-i"@, out, "-f"@, "1440"@];
    match label {
        Some(l) => head + seq!["-v"@, l, "::"@],
        None => head + seq!["::"@],
    }
}

/// What `mcopy` is given.
pub open spec fn copy_args(out: Seq<char>, entries: Seq<Seq<char>>) -> Seq<Seq<char>> {
    seq!["-i"@, out, "-s"@] + text_sorted(entries) + seq!["::/"@]
}

/// The label that a floppy gets, or what is wrong with it.
pub open spec fn label_given(label: Option<Seq<char>>) -> Result<Option<Seq<char>>, Seq<char>> {
    match label {
        None => Ok(None),
        Some(l) => match floppy_label(l) {
            Ok(u) => Ok(Some(u)),
            Err(e) => Err(e),
        },
    }
}

/// What makes a 1.44 MB FAT12 floppy image at `out` of a folder, of which
/// `items` is all that is below it and `entries` the paths directly below it.
pub fn build_floppy(
    src: &str,
    is_dir: bool,
    out: &str,
    label: Option<&str>,
    items: &Vec<Item>,
    entries: &Vec<String>,
) -> (r: Result<FloppyPlan, String>)
    requires
        cluster_bytes(items@) <= u64::MAX,
    ensures
        ({
            let given = label_given(
                match label {
                    Some(l) => Some(l@),
                    None => None,
                },
            );
            let fits = cluster_bytes(items@) <= FLOPPY_DATA_BYTES;
            &&& r is Ok <==> is_dir && given is Ok && fits
            &&& r matches Ok(p) ==> {
                &&& p.format.deep_view() == format_args(out@, given->Ok_0)
                &&& p.copy is Some <==> entries@.len() > 0
                &&& p.copy matches Some(c) ==> c.deep_view() == copy_args(
                    out@,
                    entries.deep_view(),
                )
            }
            &&& r matches Err(e) ==> e@ == (if !is_dir {
                "floppy source "@ + src@ + " is not a directory"@
            } else if given is Err {
                given->Err_0
            } else {
                over_capacity(src@, cluster_bytes(items@))
            })
        }),
{
    if !is_dir {
        return Err(cat3("floppy source ", src, " is not a directory"));
    }
    let given: Option<String> = match label {
        None => None,
        Some(l) => match validate_floppy_label(l) {
            Ok(u) => Some(u),
            Err(e) => return Err(e),
        },
    };
    if let Err(e) = check_capacity(src, items) {
        return Err(e);
    }
    let mut format: Vec<String> = Vec::new();
    format.push("-i".to_owned());
    format.push(out.to_owned());
    format.push("-f".to_owned());
    format.push("1440".to_owned());
    if let Some(l) = &given {
        format.push("-v".to_owned());
        format.push(l.clone());
    }
    format.push("::".to_owned());
    assert(format.deep_view() =~= format_args(out@, given.deep_view()));
    if entries.len() == 0 {
        return Ok(FloppyPlan { format, copy: None });
    }
    let sorted = sort_strings(entries);
    let ghost names = text_sorted(entries.deep_view());
    let mut copy: Vec<String> = Vec::new();
    copy.push("-i".to_owned());
    copy.push(out.to_owned());
    copy.push("-s".to_owned());
    let mut i: usize = 0;
    assert(copy.deep_view() =~= seq!["-i"@, out@, "-s"@] + names.take(0));
    while i < sorted.len()
        invariant
            i <= sorted@.len(),
            names == sorted.deep_view(),
            copy.deep_view() == seq!["-i"@, out@, "-s"@] + names.take(i as int),
        decreases sorted@.len() - i,
    {
        let ghost had = copy.deep_view();
        copy.push(sorted[i].clone());
        assert(copy.deep_view() =~= had.push(sorted@[i as int]@));
        assert(had.push(names[i as int]) =~= seq!["-i"@, out@, "-s"@] + names.take(i + 1));
        i = i + 1;
    }
    assert(names.take(i as int) =~= names);
    let ghost had = copy.deep_view();
    copy.push("::/".to_owned());
    assert(copy.deep_view() =~= had.push("::/"@));
    assert(copy.deep_view() =~= copy_args(out@, entries.deep_view()));
    Ok(FloppyPlan { format, copy: Some(copy) })
}

/// What is said of a tool that failed.
pub fn tool_failure(name: &str, status: &str, stderr: &str) -> (r: String)
    ensures
        r@ == name@ + " failed ("@ + status@ + "): "@ + trimmed_start(trimmed_end(stderr@)),
{
    let text = trim(stderr);
    cat5(name, " failed (", status, "): ", text.as_str())
}

// -- laws -------------------------------------------------------------------------------------

proof fn lemma_ascii_char(c: char)
    requires
        c <= '\u{7f}',
    ensures
        vstd::utf8::encode_scalar(c as u32).len() == 1,
{
}

proof fn lemma_ascii_len(s: Seq<char>)
    requires
        forall|i: int| 0 <= i < s.len() ==> #[trigger] s[i] <= '\u{7f}',
    ensures
        encode_utf8(s).len() == s.len(),
    decreases s.len(),
{
    if s.len() > 0 {
        lemma_ascii_char(s[0]);
        lemma_ascii_len(s.drop_first());
    }
}

/// A label that is accepted stays as it is when it is used again.
pub proof fn accepted_label_is_stable(label: Seq<char>)
    requires
        floppy_label(label) is Ok,
    ensures
        floppy_label(floppy_label(label)->Ok_0) == floppy_label(label),
{
    let u = floppy_label(label)->Ok_0;
    assert forall|i: int| 0 <= i < u.len() implies upper(#[trigger] u[i]) == u[i] by {
        assert(floppy_char(upper_text(label)[i]));
    }
    assert(upper_text(u) =~= u);
    assert forall|i: int| 0 <= i < label.len() implies #[trigger] label[i] <= '\u{7f}' by {
        assert(floppy_char(upper_text(label)[i]));
    }
    assert forall|i: int| 0 <= i < u.len() implies #[trigger] u[i] <= '\u{7f}' by {
        assert(floppy_char(upper_text(label)[i]));
    }
    lemma_ascii_len(label);
    lemma_ascii_len(u);
}

/// What a file takes on a floppy is the least number of whole 512-byte clusters
/// that hold it, and a folder takes one; a floppy has room for what its 2880
/// sectors hold beyond the boot sector, the two tables and the root folder.
pub proof fn clusters_are_whole(items: Seq<Item>, len: u64)
    ensures
        item_bytes(Item::File(len)) % 512 == 0,
        len <= item_bytes(Item::File(len)) < len + 512,
        item_bytes(Item::Dir) == 512,
        cluster_bytes(Seq::<Item>::empty()) == 0,
        cluster_bytes(items.push(Item::File(len))) == cluster_bytes(items) + item_bytes(
            Item::File(len),
        ),
        cluster_bytes(items.push(Item::Dir)) == cluster_bytes(items) + 512,
        FLOPPY_DATA_BYTES == (2880 - 1 - 2 * 9 - 14) * 512,
{
    assert(items.push(Item::File(len)).drop_last() =~= items);
    assert(items.push(Item::Dir).drop_last() =~= items);
}

/// A folder goes on a floppy exactly when it is one, its label can be written,
/// and what it takes fits; a label can be written when it has 1 to 11 bytes, all
/// of them letters, digits, spaces, underscores and dashes, and is written in
/// upper case.
pub proof fn floppy_takes_what_fits(
    src: &str,
    is_dir: bool,
    out: &str,
    label: &str,
    items: &Vec<Item>,
    entries: &Vec<String>,
    r: Result<FloppyPlan, String>,
)
    requires
        cluster_bytes(items@) <= u64::MAX,
        call_ensures(build_floppy, (src, is_dir, out, Some(label), items, entries), r),
    ensures
        ({
            let writable = 1 <= label@.len() && encode_utf8(label@).len() <= 11 && forall|i: int|
                0 <= i < label@.len() ==> {
                    let c = #[trigger] label@[i];
                    ('A' <= c <= 'Z') || ('a' <= c <= 'z') || ('0' <= c <= '9') || c == ' ' || c
                        == '_' || c == '-'
                };
            &&& r is Ok <==> is_dir && writable && cluster_bytes(items@) <= 1_457_664
            &&& r is Ok ==> {
                let f = (r->Ok_0).format.deep_view();
                &&& f.len() == 7
                &&& f[0] == "-i"@ && f[1] == out@ && f[2] == "-f"@ && f[3] == "1440"@ && f[4]
                    == "-v"@ && f[6] == "::"@
                &&& f[5].len() == label@.len()
                &&& forall|i: int|
                    0 <= i < label@.len() ==> {
                        let c = #[trigger] label@[i];
                        f[5][i] == (if 'a' <= c <= 'z' {
                            (c as u32 - 32) as char
                        } else {
                            c
                        })
                    }
                &&& (r->Ok_0).copy is Some <==> entries@.len() > 0
            }
        }),
{
    let writable = 1 <= label@.len() && encode_utf8(label@).len() <= 11 && forall|i: int|
        0 <= i < label@.len() ==> {
            let c = #[trigger] label@[i];
            ('A' <= c <= 'Z') || ('a' <= c <= 'z') || ('0' <= c <= '9') || c == ' ' || c == '_' || c
                == '-'
        };
    let u = upper_text(label@);
    assert forall|i: int| 0 <= i < label@.len() implies floppy_char(#[trigger] u[i]) == ({
        let c = label@[i];
        ('A' <= c <= 'Z') || ('a' <= c <= 'z') || ('0' <= c <= '9') || c == ' ' || c == '_' || c
            == '-'
    }) by {
        assert(u[i] == upper(label@[i]));
    }
    assert((floppy_label(label@) is Ok) == writable) by {
        if writable {
            assert forall|i: int| 0 <= i < label@.len() implies floppy_char(#[trigger] u[i]) by {
                let c = label@[i];
            }
        } else if floppy_label(label@) is Ok {
            assert forall|i: int| 0 <= i < label@.len() implies ({
                let c = #[trigger] label@[i];
                ('A' <= c <= 'Z') || ('a' <= c <= 'z') || ('0' <= c <= '9') || c == ' ' || c == '_'
                    || c == '-'
            }) by {
                assert(floppy_char(u[i]));
            }
        }
    }
}

/// What is copied is every entry of the folder, each once, in the order of
/// their names.
pub proof fn floppy_gets_every_entry(out: Seq<char>, entries: Seq<Seq<char>>)
    ensures
        ({
            let a = copy_args(out, entries);
            let n = entries.len() as int;
            &&& a.len() == n + 4
            &&& a[0] == "-i"@ && a[1] == out && a[2] == "-s"@ && a[n + 3] == "::/"@
            &&& a.subrange(3, n + 3).to_multiset() == entries.to_multiset()
        }),
{
    crate::text::sorting_only_reorders(entries, 0, 0);
    let a = copy_args(out, entries);
    assert(a.subrange(3, entries.len() as int + 3) =~= text_sorted(entries));
}

} // verus!
