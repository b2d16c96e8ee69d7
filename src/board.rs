//! Boards: how they are shown, and how a mounted volume is judged to be a
//! CircuitPython board from what the caller observed on it.
use vstd::prelude::*;
use crate::error::CpdError;
use crate::file_ops::{bytes_text, format_bytes};
use crate::text::{chars_of, fields_of, lines_of, push_str, split_fields, split_lines, string_of};

verus! {

/// The text upper-cased as `str::to_uppercase` does it.
pub uninterp spec fn upper_of(s: Seq<char>) -> Seq<char>;

/// The text lower-cased as `str::to_lowercase` does it.
pub uninterp spec fn lower_of(s: Seq<char>) -> Seq<char>;

/// Relies on `str::to_uppercase`: the result depends on the characters alone.
#[verifier::external_body]
fn uppercase(s: &str) -> (r: String)
    ensures
        r@ == upper_of(s@),
{
    s.to_uppercase()
}

/// Relies on `str::to_lowercase`: the result depends on the characters alone.
#[verifier::external_body]
fn lowercase(s: &str) -> (r: String)
    ensures
        r@ == lower_of(s@),
{
    s.to_lowercase()
}

#[derive(Debug, Clone)]
pub struct CircuitPythonBoard {
    pub path: String,
    pub name: String,
    pub volume_label: Option<String>,
    pub total_space: u64,
    pub available_space: u64,
}

impl CircuitPythonBoard {
    pub fn new(
        path: String,
        name: String,
        volume_label: Option<String>,
        total_space: u64,
        available_space: u64,
    ) -> (r: CircuitPythonBoard)
        ensures
            r.path@ == path@,
            r.name@ == name@,
            r.volume_label == volume_label,
            r.total_space == total_space,
            r.available_space == available_space,
    {
        CircuitPythonBoard { path, name, volume_label, total_space, available_space }
    }

    /// The name, followed by the volume label in parentheses where there is one.
    pub fn display_name(&self) -> (r: String)
        ensures
            r@ == match self.volume_label {
                Some(label) => self.name@ + " ("@ + label@ + ")"@,
                None => self.name@,
            },
    {
        let mut out = chars_of(self.name.as_str());
        match &self.volume_label {
            Some(label) => {
                push_str(&mut out, " (");
                push_str(&mut out, label.as_str());
                push_str(&mut out, ")");
            },
            None => {},
        }
        string_of(out.as_slice())
    }

    /// `available / total available`, both as `format_bytes` writes them.
    pub fn format_space(&self) -> (r: String)
        ensures
            r@ == bytes_text(self.available_space as nat) + " / "@ + bytes_text(
                self.total_space as nat,
            ) + " available"@,
    {
        let available = format_bytes(self.available_space);
        let total = format_bytes(self.total_space);
        let mut out = chars_of(available.as_str());
        push_str(&mut out, " / ");
        push_str(&mut out, total.as_str());
        push_str(&mut out, " available");
        string_of(out.as_slice())
    }
}

/// What the caller found at a candidate mount point.
#[derive(Debug, Clone)]
pub struct BoardProbe {
    pub exists: bool,
    pub is_dir: bool,
    pub volume_label: Option<String>,
    /// `boot_out.txt` is there.
    pub has_boot_out: bool,
    /// Its text, where it could be read.
    pub boot_out_text: Option<String>,
    /// How many of `code.py`, `main.py`, `lib` are there.
    pub optional_found: usize,
    /// How many of `CIRCUITPY.USB_VID`, `CIRCUITPY.USB_PID`,
    /// `settings.toml`, `.fseventsd` are there.
    pub indicators_found: usize,
}

/// `needle` occurs in `hay`.
pub open spec fn occurs(hay: Seq<char>, needle: Seq<char>) -> bool {
    exists|i: int|
        0 <= i && i + needle.len() <= hay.len() && #[trigger] hay.subrange(i, i + needle.len())
            == needle
}

/// Whether `needle` occurs in `hay`.
pub fn contains_text(hay: &str, needle: &str) -> (r: bool)
    ensures
        r == occurs(hay@, needle@),
{
    let h = chars_of(hay);
    let n = chars_of(needle);
    if n.len() > h.len() {
        return false;
    }
    let hlen = h.len();
    let last = hlen - n.len();
    let mut i: usize = 0;
    while i <= last
        invariant
            h@ == hay@,
            n@ == needle@,
            n@.len() <= h@.len(),
            last == h@.len() - n@.len(),
            hlen == h@.len(),
            i <= last + 1,
            forall|k: int| 0 <= k < i ==> #[trigger] h@.subrange(k, k + n@.len()) != n@,
        decreases h@.len() - i,
    {
        let mut j: usize = 0;
        let mut same = true;
        assert(h@.subrange(i as int, i as int) =~= n@.take(0));
        while j < n.len()
            invariant
                h@ == hay@,
                n@ == needle@,
                i <= last,
                hlen == h@.len(),
                n@.len() <= h@.len(),
                last == h@.len() - n@.len(),
                j <= n@.len(),
                same == (h@.subrange(i as int, i + j) == n@.take(j as int)),
            decreases n@.len() - j,
        {
            if h[i + j] != n[j] {
                same = false;
            }
            proof {
                let longer = h@.subrange(i as int, i + j + 1);
                let want = n@.take(j + 1);
                assert(longer.take(j as int) =~= h@.subrange(i as int, i + j));
                assert(want.take(j as int) =~= n@.take(j as int));
                if same {
                    assert(longer =~= want);
                } else if longer == want {
                    assert(longer[j as int] == want[j as int]);
                }
            }
            j = j + 1;
        }
        assert(n@.take(n@.len() as int) =~= n@);
        if same {
            return true;
        }
        if i == last {
            return false;
        }
        i = i + 1;
    }
    false
}

/// The verdict on a probe, given its volume label upper-cased and the text
/// of its `boot_out.txt` lower-cased.
pub open spec fn board_verdict(
    p: BoardProbe,
    label_upper: Option<Seq<char>>,
    boot_lower: Option<Seq<char>>,
) -> bool {
    if !p.exists || !p.is_dir {
        false
    } else if label_upper matches Some(l) && occurs(l, "CIRCUITPY"@) {
        true
    } else if !p.has_boot_out {
        false
    } else if boot_lower matches Some(t) && (occurs(t, "circuitpython"@) || occurs(t, "adafruit"@)) {
        true
    } else {
        p.optional_found >= 1 || p.indicators_found >= 1
    }
}

/// `path` lies at or under the mount point `mount`.
pub open spec fn under_mount(path: Seq<char>, mount: Seq<char>) -> bool {
    mount.len() > 0 && mount.len() <= path.len() && path.take(mount.len() as int) == mount && (
    path.len() == mount.len() || mount.last() == '/' || path[mount.len() as int] == '/')
}

/// A line of a mount table names a device labelled `CIRCUITPY` mounted at
/// or above `path`.
pub open spec fn mount_line_labels(line: Seq<char>, path: Seq<char>) -> bool {
    let f = fields_of(line);
    f.len() >= 2 && under_mount(path, f[1]) && occurs(f[0], "CIRCUITPY"@)
}

fn is_under_mount(path: &[char], mount: &[char]) -> (r: bool)
    ensures
        r == under_mount(path@, mount@),
{
    if mount.len() == 0 || mount.len() > path.len() {
        return false;
    }
    let mut i: usize = 0;
    while i < mount.len()
        invariant
            0 < mount@.len() <= path@.len(),
            i <= mount@.len(),
            path@.take(i as int) == mount@.take(i as int),
        decreases mount@.len() - i,
    {
        if path[i] != mount[i] {
            assert(path@.take(mount@.len() as int)[i as int] != mount@[i as int]);
            return false;
        }
        i = i + 1;
        assert(path@.take(i as int) =~= mount@.take(i as int));
    }
    assert(mount@.take(mount@.len() as int) =~= mount@);
    let n = mount.len();
    n == path.len() || mount[n - 1] == '/' || path[n] == '/'
}

pub open spec fn opt_upper(s: Option<String>) -> Option<Seq<char>> {
    match s {
        Some(t) => Some(upper_of(t@)),
        None => None,
    }
}

pub open spec fn opt_lower(s: Option<String>) -> Option<Seq<char>> {
    match s {
        Some(t) => Some(lower_of(t@)),
        None => None,
    }
}

/// Chooses among the detected boards.
pub struct BoardDetector {
    pub verbose: bool,
}

/// What to do with the boards that detection found.
#[derive(Debug, Clone, Copy, PartialEq, Eq, Structural)]
pub enum BoardChoice {
    /// Use the board at this index.
    Use(usize),
    /// Several boards, and the user may be asked.
    Ask,
}

impl BoardDetector {
    pub fn new(verbose: bool) -> (r: BoardDetector)
        ensures
            r.verbose == verbose,
    {
        BoardDetector { verbose }
    }

    /// The verdict on `probe`, from its label already upper-cased and its
    /// `boot_out.txt` text already lower-cased: a board labelled
    /// `CIRCUITPY`, or one with `boot_out.txt` that names CircuitPython or
    /// Adafruit, or that has one of the usual files beside it.
    pub fn judge(
        &self,
        probe: &BoardProbe,
        label_upper: Option<&str>,
        boot_lower: Option<&str>,
    ) -> (r: bool)
        ensures
            r == board_verdict(
                *probe,
                match label_upper {
                    Some(l) => Some(l@),
                    None => None,
                },
                match boot_lower {
                    Some(t) => Some(t@),
                    None => None,
                },
            ),
    {
        if !probe.exists || !probe.is_dir {
            return false;
        }
        if let Some(l) = label_upper {
            if contains_text(l, "CIRCUITPY") {
                return true;
            }
        }
        if !probe.has_boot_out {
            return false;
        }
        if let Some(t) = boot_lower {
            if contains_text(t, "circuitpython") || contains_text(t, "adafruit") {
                return true;
            }
        }
        probe.optional_found >= 1 || probe.indicators_found >= 1
    }

    /// Whether the probed volume is a CircuitPython board.
    pub fn is_circuitpython_board(&self, probe: &BoardProbe) -> (r: bool)
        ensures
            r == board_verdict(
                *probe,
                opt_upper(probe.volume_label),
                opt_lower(probe.boot_out_text),
            ),
    {
        let upper = match &probe.volume_label {
            Some(l) => Some(uppercase(l.as_str())),
            None => None,
        };
        let lower = match &probe.boot_out_text {
            Some(t) => Some(lowercase(t.as_str())),
            None => None,
        };
        let label_upper = match &upper {
            Some(u) => Some(u.as_str()),
            None => None,
        };
        let boot_lower = match &lower {
            Some(t) => Some(t.as_str()),
            None => None,
        };
        self.judge(probe, label_upper, boot_lower)
    }

    /// The label that a mount table gives the volume at `path`: `CIRCUITPY`
    /// where some line mounts a device whose name holds it at or above
    /// `path`.
    pub fn get_unix_label_from_mounts(&self, mounts: &str, path: &str) -> (r: Option<String>)
        ensures
            r is Some <==> exists|k: int|
                0 <= k < lines_of(mounts@).len() && #[trigger] mount_line_labels(
                    lines_of(mounts@)[k],
                    path@,
                ),
            r matches Some(l) ==> l@ == "CIRCUITPY"@,
    {
        let text = chars_of(mounts);
        let lines = split_lines(text.as_slice());
        let target = chars_of(path);
        let mut k: usize = 0;
        while k < lines.len()
            invariant
                lines@.len() == lines_of(mounts@).len(),
                forall|j: int| 0 <= j < lines@.len() ==> #[trigger] lines@[j]@ == lines_of(mounts@)[j],
                text@ == mounts@,
                target@ == path@,
                k <= lines@.len(),
                forall|j: int| 0 <= j < k ==> !#[trigger] mount_line_labels(lines_of(mounts@)[j], path@),
            decreases lines@.len() - k,
        {
            let fields = split_fields(lines[k].as_slice());
            if fields.len() >= 2 {
                let device = string_of(fields[0].as_slice());
                if is_under_mount(target.as_slice(), fields[1].as_slice()) && contains_text(
                    device.as_str(),
                    "CIRCUITPY",
                ) {
                    assert(mount_line_labels(lines_of(mounts@)[k as int], path@));
                    return Some(string_of(chars_of("CIRCUITPY").as_slice()));
                }
            }
            assert(!mount_line_labels(lines_of(mounts@)[k as int], path@));
            k = k + 1;
        }
        None
    }

    /// No board is an error; one is used; several are an error when the
    /// user may not be asked, and a question otherwise.
    pub fn resolve(&self, count: usize, assume_yes: bool) -> (r: Result<BoardChoice, CpdError>)
        ensures
            count == 0 ==> r matches Err(CpdError::BoardNotFound),
            count == 1 ==> r == Ok::<BoardChoice, CpdError>(BoardChoice::Use(0)),
            count > 1 && assume_yes ==> r matches Err(CpdError::MultipleBoardsFound),
            count > 1 && !assume_yes ==> r == Ok::<BoardChoice, CpdError>(BoardChoice::Ask),
    {
        if count == 0 {
            Err(CpdError::BoardNotFound)
        } else if count == 1 {
            Ok(BoardChoice::Use(0))
        } else if assume_yes {
            Err(CpdError::MultipleBoardsFound)
        } else {
            Ok(BoardChoice::Ask)
        }
    }

    /// The board that an answer of the user picks: a number from 1 to
    /// `count`, counted from one.
    pub fn pick(&self, count: usize, answer: Option<usize>) -> (r: Option<usize>)
        ensures
            r == (match answer {
                Some(n) if 1 <= n <= count => Some((n - 1) as usize),
                _ => None::<usize>,
            }),
    {
        match answer {
            Some(n) => {
                if 1 <= n && n <= count {
                    Some(n - 1)
                } else {
                    None
                }
            },
            None => None,
        }
    }
}

} // verus!
