//! ISO images from folders.
//!
//! Prefers `xorriso -as mkisofs`, falling back to `genisoimage` and then
//! `mkisofs`. Images are built with Joliet and Rock Ridge extensions so both
//! Windows unattend media and Linux payloads read correctly.

use vstd::prelude::*;
use vstd::utf8::encode_utf8;

use crate::text::{
    cat3, cat5, cat7, chars_of, decimal, decimal_string, quoted, quoted_text, trim, trimmed_end,
    trimmed_start,
};

verus! {

/// Maximum ISO 9660 volume identifier length.
pub const ISO_LABEL_MAX: usize = 32;

/// A printable ASCII character.
pub open spec fn iso_char(c: char) -> bool {
    ' ' <= c <= '~'
}

/// What is wrong with an ISO label.
pub open spec fn iso_label_error(label: Seq<char>) -> Option<Seq<char>> {
    let n = encode_utf8(label).len();
    if label.len() == 0 {
        Some("ISO label must not be empty"@)
    } else if n > ISO_LABEL_MAX {
        Some(
            "ISO label "@ + quoted_text(label) + " is "@ + decimal(n)
                + " characters; the maximum is "@ + decimal(ISO_LABEL_MAX as nat),
        )
    } else if !(forall|i: int| 0 <= i < label.len() ==> iso_char(#[trigger] label[i])) {
        Some(
            "ISO label "@ + quoted_text(label) + " contains characters outside printable ASCII"@,
        )
    } else {
        None
    }
}

/// Validates an ISO volume label: non-empty, at most 32 printable ASCII
/// characters.
pub fn validate_iso_label(label: &str) -> (r: Result<(), String>)
    ensures
        r is Ok <==> iso_label_error(label@) is None,
        r matches Err(e) ==> iso_label_error(label@) == Some(e@),
{
    let c = chars_of(label);
    if c.len() == 0 {
        return Err("ISO label must not be empty".to_owned());
    }
    let bytes = label.as_bytes_vec();
    let n: usize = bytes.len();
    let shown = quoted(label);
    if n > ISO_LABEL_MAX {
        let count = decimal_string(n as u64);
        let most = decimal_string(ISO_LABEL_MAX as u64);
        let mut s = cat5(
            "ISO label ",
            shown.as_str(),
            " is ",
            count.as_str(),
            " characters; the maximum is ",
        );
        s.append(most.as_str());
        return Err(s);
    }
    let mut i: usize = 0;
    while i < c.len()
        invariant
            i <= c@.len(),
            c@ == label@,
            forall|j: int| 0 <= j < i ==> iso_char(#[trigger] label@[j]),
            n == encode_utf8(label@).len(),
            n <= ISO_LABEL_MAX,
            shown@ == quoted_text(label@),
        decreases c@.len() - i,
    {
        if !(' ' <= c[i] && c[i] <= '~') {
            return Err(
                cat3(
                    "ISO label ",
                    shown.as_str(),
                    " contains characters outside printable ASCII",
                ),
            );
        }
        i = i + 1;
    }
    Ok(())
}

/// A command line.
#[derive(Debug)]
pub struct ToolCommand {
    pub program: String,
    pub args: Vec<String>,
}

/// The program of the tool at a place, in the order in which they are tried.
pub open spec fn iso_program(k: int) -> Seq<char> {
    if k == 0 {
        "xorriso"@
    } else if k == 1 {
        "genisoimage"@
    } else {
        "mkisofs"@
    }
}

/// What a tool is given.
pub open spec fn iso_args(k: int, src: Seq<char>, out: Seq<char>, label: Option<Seq<char>>) -> Seq<
    Seq<char>,
> {
    let lead = if k == 0 {
        seq!["-as"@, "mkisofs"@]
    } else {
        Seq::empty()
    };
    let volume = match label {
        Some(l) => seq!["-V"@, l],
        None => Seq::empty(),
    };
    lead + seq!["-o"@, out, "-J"@, "-R"@] + volume + seq![src]
}

fn iso_tool(k: usize, src: &str, out: &str, label: Option<&str>) -> (r: ToolCommand)
    ensures
        r.program@ == iso_program(k as int),
        r.args.deep_view() == iso_args(
            k as int,
            src@,
            out@,
            match label {
                Some(l) => Some(l@),
                None => None,
            },
        ),
{
    let mut args: Vec<String> = Vec::new();
    if k == 0 {
        args.push("-as".to_owned());
        args.push("mkisofs".to_owned());
    }
    args.push("-o".to_owned());
    args.push(out.to_owned());
    args.push("-J".to_owned());
    args.push("-R".to_owned());
    if let Some(l) = label {
        args.push("-V".to_owned());
        args.push(l.to_owned());
    }
    args.push(src.to_owned());
    assert(args.deep_view() =~= iso_args(
        k as int,
        src@,
        out@,
        match label {
            Some(l) => Some(l@),
            None => None,
        },
    ));
    let program = if k == 0 {
        "xorriso"
    } else if k == 1 {
        "genisoimage"
    } else {
        "mkisofs"
    };
    ToolCommand { program: program.to_owned(), args }
}

/// The command lines that build an ISO image at `out` from a folder, in
/// preference order: the next is for when a tool is not installed.
pub fn build_iso(src: &str, is_dir: bool, out: &str, label: Option<&str>) -> (r: Result<
    Vec<ToolCommand>,
    String,
>)
    ensures
        ({
            let given = match label {
                Some(l) => Some(l@),
                None => None,
            };
            let wrong = match label {
                Some(l) => iso_label_error(l@),
                None => None,
            };
            &&& r is Ok <==> is_dir && wrong is None
            &&& r matches Ok(tools) ==> tools@.len() == 3 && forall|k: int|
                0 <= k < 3 ==> (#[trigger] tools@[k]).program@ == iso_program(k)
                    && tools@[k].args.deep_view() == iso_args(k, src@, out@, given)
            &&& r matches Err(e) ==> e@ == (if !is_dir {
                "ISO source "@ + src@ + " is not a directory"@
            } else {
                wrong->0
            })
        }),
{
    if !is_dir {
        return Err(cat3("ISO source ", src, " is not a directory"));
    }
    if let Some(l) = label {
        if let Err(e) = validate_iso_label(l) {
            return Err(e);
        }
    }
    let mut tools: Vec<ToolCommand> = Vec::new();
    tools.push(iso_tool(0, src, out, label));
    tools.push(iso_tool(1, src, out, label));
    tools.push(iso_tool(2, src, out, label));
    Ok(tools)
}

/// What came of running a tool.
#[derive(Debug)]
pub enum ToolOutcome {
    NotFound,
    /// It could not be run.
    Error(String),
    Failed { status: String, stderr: String },
    Built,
}

/// What follows running the tool at a place.
#[derive(Debug)]
pub enum IsoNext {
    Done,
    /// Run this one.
    Try(usize),
    Failed(String),
}

/// What follows running the tool at a place: the first that is installed
/// decides.
pub fn after_iso_tool(tool: usize, program: &str, src: &str, outcome: &ToolOutcome) -> (r: IsoNext)
    ensures
        match *outcome {
            ToolOutcome::Built => r is Done,
            ToolOutcome::NotFound => if tool < 2 {
                r matches IsoNext::Try(n) && n == tool + 1
            } else {
                r matches IsoNext::Failed(e) && e@
                    == "no ISO building tool found: install xorriso (preferred), genisoimage, or mkisofs"@
            },
            ToolOutcome::Error(x) => r matches IsoNext::Failed(e) && e@ == "running "@ + program@
                + ": "@ + x@,
            ToolOutcome::Failed { status, stderr } => r matches IsoNext::Failed(e) && e@ == program@
                + " failed building ISO from "@ + src@ + " ("@ + status@ + "): "@ + trimmed_start(
                trimmed_end(stderr@),
            ),
        },
{
    match outcome {
        ToolOutcome::Built => IsoNext::Done,
        ToolOutcome::NotFound => if tool < 2 {
            IsoNext::Try(tool + 1)
        } else {
            IsoNext::Failed(
                "no ISO building tool found: install xorriso (preferred), genisoimage, or mkisofs".to_owned(),
            )
        },
        ToolOutcome::Error(x) => {
            let mut s = cat3("running ", program, ": ");
            s.append(x.as_str());
            IsoNext::Failed(s)
        },
        ToolOutcome::Failed { status, stderr } => {
            let text = trim(stderr.as_str());
            IsoNext::Failed(
                cat7(
                    program,
                    " failed building ISO from ",
                    src,
                    " (",
                    status.as_str(),
                    "): ",
                    text.as_str(),
                ),
            )
        },
    }
}

/// An ISO image is built from a folder under a label of 1 to 32 printable ASCII
/// characters, or under none; the tools are tried in order of preference, all
/// with the same folder, image and label.
pub proof fn iso_is_built_from_a_folder(
    src: &str,
    is_dir: bool,
    out: &str,
    label: Option<&str>,
    r: Result<Vec<ToolCommand>, String>,
    k: int,
)
    requires
        call_ensures(build_iso, (src, is_dir, out, label), r),
        0 <= k < 3,
    ensures
        ({
            let fine = label matches Some(l) ==> 1 <= l@.len() && encode_utf8(l@).len() <= 32
                && forall|i: int|
                0 <= i < l@.len() ==> {
                    let c = #[trigger] l@[i];
                    ' ' <= c <= '~'
                };
            &&& r is Ok <==> is_dir && fine
            &&& r is Ok ==> {
                let tools = (r->Ok_0)@;
                let args = tools[k].args.deep_view();
                let n = args.len() as int;
                &&& tools.len() == 3
                &&& tools[0].program@ == "xorriso"@
                &&& tools[1].program@ == "genisoimage"@
                &&& tools[2].program@ == "mkisofs"@
                &&& args[n - 1] == src@
                &&& label matches Some(l) ==> args[n - 2] == l@ && args[n - 3] == "-V"@ && args[n
                    - 6] == out@ && args[n - 7] == "-o"@
                &&& label is None ==> args[n - 4] == out@ && args[n - 5] == "-o"@
                &&& k == 0 ==> args[0] == "-as"@ && args[1] == "mkisofs"@
            }
        }),
{
    if let Some(l) = label {
        assert(iso_label_error(l@) is None <==> 1 <= l@.len() && encode_utf8(l@).len() <= 32
            && forall|i: int|
            0 <= i < l@.len() ==> {
                let c = #[trigger] l@[i];
                ' ' <= c <= '~'
            });
    }
    if let Ok(tools) = r {
        assert(tools@[0].program@ == iso_program(0));
        assert(tools@[1].program@ == iso_program(1));
        assert(tools@[2].program@ == iso_program(2));
        assert(tools@[k].program@ == iso_program(k));
    }
}

} // verus!
