//! The fixed command vocabulary and command-script parsing.
//!
//! A command script is text: one command per line, `;` starting a
//! comment that runs to the end of the line, blank lines and whole-line
//! comments skipped, and every surviving command trimmed and terminated
//! with exactly one newline for transmission.

use vstd::prelude::*;
use vstd::string::StrSliceExecFns;
use vstd::string::StringExecFns;
use vstd::string::StringSliceAdditionalSpecFns;

use crate::errors::AppError;

verus! {

/// The commands this adapter issues by name, per the common G-code
/// vocabulary (Marlin-compatible).
#[derive(Debug)]
pub enum GcodeCommand {
    AutoHome,
    AutoBedLeveling,
    SystemInfo,
}

impl GcodeCommand {
    /// The wire text of the command (without the newline).
    pub fn value(&self) -> (r: &str)
        ensures
            *self is AutoHome ==> r@ == "G28"@,
            *self is AutoBedLeveling ==> r@ == "G29"@,
            *self is SystemInfo ==> r@ == "M115"@,
    {
        match self {
            GcodeCommand::AutoHome => "G28",
            GcodeCommand::AutoBedLeveling => "G29",
            GcodeCommand::SystemInfo => "M115",
        }
    }
}

/// Index of the first character of `s` satisfying `p`; `s.len()` if
/// none does.
pub open spec fn first_where(s: Seq<char>, p: spec_fn(char) -> bool) -> int
    decreases s.len(),
{
    if s.len() == 0 {
        0
    } else if p(s[0]) {
        0
    } else {
        1 + first_where(s.drop_first(), p)
    }
}

pub proof fn lemma_first_where_bounds(s: Seq<char>, p: spec_fn(char) -> bool)
    ensures
        0 <= first_where(s, p) <= s.len(),
        first_where(s, p) < s.len() ==> p(s[first_where(s, p)]),
        forall|j: int| 0 <= j < first_where(s, p) ==> !p(#[trigger] s[j]),
        forall|j: int| 0 <= j < s.len() && p(#[trigger] s[j]) ==> first_where(s, p) <= j,
    decreases s.len(),
{
    if s.len() == 0 {
    } else if p(s[0]) {
    } else {
        lemma_first_where_bounds(s.drop_first(), p);
        assert forall|j: int| 0 <= j < s.len() && p(#[trigger] s[j]) implies first_where(s, p)
            <= j by {
            assert(s.drop_first()[j - 1] == s[j]);
        }
        assert forall|j: int| 0 <= j < first_where(s, p) implies !p(#[trigger] s[j]) by {
            if j >= 1 {
                assert(s.drop_first()[j - 1] == s[j]);
            }
        }
    }
}

/// Index of the first newline character.
pub open spec fn first_nl(s: Seq<char>) -> int {
    first_where(s, |c: char| c == '\n')
}

/// Index of the first comment delimiter.
pub open spec fn first_semi(s: Seq<char>) -> int {
    first_where(s, |c: char| c == ';')
}

/// The whitespace that trimming removes at either end of a command.
pub open spec fn is_gcode_space(c: char) -> bool {
    c == ' ' || c == '\t' || c == '\r' || c == '\n'
}

fn is_space_char(c: char) -> (r: bool)
    ensures
        r == is_gcode_space(c),
{
    c == ' ' || c == '\t' || c == '\r' || c == '\n'
}

/// `s` without leading whitespace.
pub open spec fn trim_front(s: Seq<char>) -> Seq<char>
    decreases s.len(),
{
    if s.len() > 0 && is_gcode_space(s[0]) {
        trim_front(s.drop_first())
    } else {
        s
    }
}

/// `s` without trailing whitespace.
pub open spec fn trim_back(s: Seq<char>) -> Seq<char>
    decreases s.len(),
{
    if s.len() > 0 && is_gcode_space(s.last()) {
        trim_back(s.drop_last())
    } else {
        s
    }
}

/// `s` without whitespace at either end.
pub open spec fn trimmed(s: Seq<char>) -> Seq<char> {
    trim_back(trim_front(s))
}

pub proof fn lemma_trim_front_at(s: Seq<char>, a: int)
    requires
        0 <= a <= s.len(),
        forall|j: int| 0 <= j < a ==> is_gcode_space(#[trigger] s[j]),
        a < s.len() ==> !is_gcode_space(s[a]),
    ensures
        trim_front(s) == s.skip(a),
    decreases s.len(),
{
    if a == 0 {
        assert(s.skip(0) =~= s);
    } else {
        assert(is_gcode_space(s[0]));
        lemma_trim_front_at(s.drop_first(), a - 1);
        assert(s.drop_first().skip(a - 1) =~= s.skip(a));
    }
}

pub proof fn lemma_trim_back_at(s: Seq<char>, b: int)
    requires
        0 <= b <= s.len(),
        forall|j: int| b <= j < s.len() ==> is_gcode_space(#[trigger] s[j]),
        b > 0 ==> !is_gcode_space(s[b - 1]),
    ensures
        trim_back(s) == s.take(b),
    decreases s.len(),
{
    if b == s.len() {
        if s.len() > 0 {
            assert(!is_gcode_space(s.last()));
        }
        assert(s.take(b) =~= s);
    } else {
        assert(is_gcode_space(s.last()));
        lemma_trim_back_at(s.drop_last(), b);
        assert(s.drop_last().take(b) =~= s.take(b));
    }
}

/// A segment with its line-ending carriage return removed, as the
/// line splitter does for `\r\n` endings.
pub open spec fn strip_cr(t: Seq<char>) -> Seq<char> {
    if t.len() > 0 && t.last() == '\r' {
        t.drop_last()
    } else {
        t
    }
}

/// The lines of a text: split at `\n`, a preceding `\r` removed, the
/// final line ending optional, an empty text yielding no lines.
pub open spec fn split_lines(s: Seq<char>) -> Seq<Seq<char>>
    decreases s.len() via split_lines_decreases
{
    if s.len() == 0 {
        Seq::empty()
    } else if first_nl(s) < s.len() {
        seq![strip_cr(s.take(first_nl(s)))] + split_lines(s.skip(first_nl(s) + 1))
    } else {
        seq![s]
    }
}

#[via_fn]
proof fn split_lines_decreases(s: Seq<char>) {
    lemma_first_where_bounds(s, |c: char| c == '\n');
}

/// A trimmed command up to its comment delimiter.
pub open spec fn before_comment(t: Seq<char>) -> Seq<char> {
    t.take(first_semi(t))
}

/// What one script line contributes: nothing for an empty line or a
/// whole-line comment; otherwise the line trimmed, cut at the first
/// `;`, and newline-terminated.
pub open spec fn parsed_line(line: Seq<char>) -> Option<Seq<char>> {
    if line.len() == 0 || line[0] == ';' {
        None
    } else {
        Some(before_comment(trimmed(line)).push('\n'))
    }
}

/// All commands a sequence of script lines yields, in order.
pub open spec fn parsed_lines(lines: Seq<Seq<char>>) -> Seq<Seq<char>>
    decreases lines.len(),
{
    if lines.len() == 0 {
        Seq::empty()
    } else {
        (match parsed_line(lines[0]) {
            Some(c) => seq![c],
            None => Seq::empty(),
        }) + parsed_lines(lines.drop_first())
    }
}

/// The views of a sequence of string slices.
pub open spec fn str_views(ss: Seq<&str>) -> Seq<Seq<char>> {
    ss.map_values(|s: &str| s@)
}

/// The views of a sequence of strings.
pub open spec fn string_views(ss: Seq<String>) -> Seq<Seq<char>> {
    ss.map_values(|s: String| s@)
}

/// Split a text into its lines, as `split_lines` specifies.
pub fn split_str_lines(s: &str) -> (r: Vec<&str>)
    ensures
        str_views(r@) == split_lines(s@),
{
    let len = s.unicode_len();
    let mut out: Vec<&str> = Vec::new();
    let mut p: usize = 0;
    proof {
        assert(s@.skip(0) =~= s@);
        assert(str_views(out@) + split_lines(s@) =~= split_lines(s@));
    }
    while p < len
        invariant
            p <= len,
            len == s@.len(),
            split_lines(s@) == str_views(out@) + split_lines(s@.skip(p as int)),
        decreases len - p,
    {
        let ghost rem = s@.skip(p as int);
        let mut q: usize = p;
        while q < len && s.get_char(q) != '\n'
            invariant
                p <= q <= len,
                len == s@.len(),
                forall|j: int| p <= j < q ==> #[trigger] s@[j] != '\n',
            decreases len - q,
        {
            q = q + 1;
        }
        proof {
            lemma_first_where_bounds(rem, |c: char| c == '\n');
            assert(forall|j: int| 0 <= j < rem.len() ==> #[trigger] rem[j] == s@[j + p]);
            if q < len {
                assert(rem[q - p] == s@[q as int]);
                assert(first_nl(rem) == q - p);
            } else {
                if first_nl(rem) < rem.len() {
                    assert(rem[first_nl(rem)] == '\n');
                    assert(s@[first_nl(rem) + p] == '\n');
                }
                assert(first_nl(rem) == q - p);
            }
        }
        if q < len {
            let cut: usize = if q > p && s.get_char(q - 1) == '\r' {
                q - 1
            } else {
                q
            };
            let seg = s.substring_char(p, cut);
            proof {
                assert(rem.take(q - p) =~= s@.subrange(p as int, q as int));
                if q > p && s@[q - 1] == '\r' {
                    assert(rem.take(q - p).last() == '\r');
                    assert(strip_cr(rem.take(q - p)) =~= s@.subrange(p as int, cut as int));
                } else {
                    if rem.take(q - p).len() > 0 {
                        assert(rem.take(q - p).last() == s@[q - 1]);
                    }
                    assert(strip_cr(rem.take(q - p)) =~= s@.subrange(p as int, cut as int));
                }
                assert(seg@ == strip_cr(rem.take(first_nl(rem))));
                assert(rem.skip(q - p + 1) =~= s@.skip(q + 1));
                assert(split_lines(rem) == seq![strip_cr(rem.take(first_nl(rem)))] + split_lines(
                    rem.skip(first_nl(rem) + 1),
                ));
            }
            let ghost ob = out@;
            out.push(seg);
            proof {
                assert(str_views(out@) =~= str_views(ob).push(seg@));
                assert(str_views(ob) + split_lines(rem) =~= str_views(out@) + split_lines(
                    s@.skip(q + 1),
                ));
            }
            p = q + 1;
        } else {
            let seg = s.substring_char(p, len);
            proof {
                assert(rem.len() > 0);
                assert(first_nl(rem) == rem.len());
                assert(split_lines(rem) == seq![rem]);
                assert(seg@ =~= rem);
            }
            let ghost ob = out@;
            out.push(seg);
            proof {
                assert(str_views(out@) =~= str_views(ob).push(seg@));
                assert(s@.skip(len as int) =~= Seq::<char>::empty());
                assert(split_lines(Seq::<char>::empty()) == Seq::<Seq<char>>::empty());
                assert(str_views(ob) + split_lines(rem) =~= str_views(out@) + split_lines(
                    s@.skip(len as int),
                ));
            }
            p = len;
        }
    }
    proof {
        assert(s@.skip(len as int) =~= Seq::<char>::empty());
        assert(split_lines(Seq::<char>::empty()) == Seq::<Seq<char>>::empty());
        assert(str_views(out@) + Seq::<Seq<char>>::empty() =~= str_views(out@));
    }
    out
}

/// Turn script lines into transmission-ready commands: skip blank
/// lines and whole-line comments, trim each survivor, cut it at its
/// comment, and terminate it with one newline.
pub fn parse_lines(lines: &Vec<&str>) -> (r: Vec<String>)
    ensures
        string_views(r@) == parsed_lines(str_views(lines@)),
{
    let mut out: Vec<String> = Vec::new();
    let mut i: usize = 0;
    proof {
        assert(str_views(lines@).skip(0) =~= str_views(lines@));
        assert(string_views(out@) + parsed_lines(str_views(lines@)) =~= parsed_lines(
            str_views(lines@),
        ));
    }
    while i < lines.len()
        invariant
            i <= lines@.len(),
            parsed_lines(str_views(lines@)) == string_views(out@) + parsed_lines(
                str_views(lines@).skip(i as int),
            ),
        decreases lines@.len() - i,
    {
        let line: &str = lines[i];
        let ghost lv = line@;
        let ghost rem = str_views(lines@).skip(i as int);
        proof {
            assert(str_views(lines@)[i as int] == lv);
            assert(rem[0] == lv);
            assert(rem.drop_first() =~= str_views(lines@).skip(i + 1));
        }
        let skip_line: bool = if line.is_empty() {
            true
        } else {
            line.get_char(0) == ';'
        };
        if skip_line {
            proof {
                assert(parsed_line(lv) is None);
                assert(parsed_lines(rem) == Seq::<Seq<char>>::empty() + parsed_lines(
                    rem.drop_first(),
                ));
                assert(Seq::<Seq<char>>::empty() + parsed_lines(rem.drop_first()) =~= parsed_lines(
                    rem.drop_first(),
                ));
            }
        } else {
            let len = line.unicode_len();
            let mut a: usize = 0;
            while a < len && is_space_char(line.get_char(a))
                invariant
                    lv == line@,
                    a <= len,
                    len == lv.len(),
                    forall|j: int| 0 <= j < a ==> is_gcode_space(#[trigger] lv[j]),
                decreases len - a,
            {
                a = a + 1;
            }
            let mut e: usize = len;
            while e > a && is_space_char(line.get_char(e - 1))
                invariant
                    lv == line@,
                    a <= e <= len,
                    len == lv.len(),
                    forall|j: int| e <= j < len ==> is_gcode_space(#[trigger] lv[j]),
                decreases e,
            {
                e = e - 1;
            }
            let t = line.substring_char(a, e);
            proof {
                lemma_trim_front_at(lv, a as int);
                let t1 = lv.skip(a as int);
                assert(forall|j: int| 0 <= j < t1.len() ==> #[trigger] t1[j] == lv[j + a]);
                lemma_trim_back_at(t1, e - a);
                assert(t1.take(e - a) =~= lv.subrange(a as int, e as int));
                assert(trimmed(lv) == t@);
            }
            let tlen = e - a;
            let mut ci: usize = 0;
            while ci < tlen && t.get_char(ci) != ';'
                invariant
                    ci <= tlen,
                    tlen == t@.len(),
                    forall|j: int| 0 <= j < ci ==> #[trigger] t@[j] != ';',
                decreases tlen - ci,
            {
                ci = ci + 1;
            }
            proof {
                lemma_first_where_bounds(t@, |c: char| c == ';');
                if ci < tlen {
                    assert(first_semi(t@) == ci);
                } else {
                    if first_semi(t@) < t@.len() {
                        assert(t@[first_semi(t@)] == ';');
                    }
                    assert(first_semi(t@) == ci);
                }
            }
            let cmd = t.substring_char(0, ci);
            let mut cl = cmd.to_owned();
            cl.append("\n");
            proof {
                reveal_strlit("\n");
                assert("\n"@ =~= seq!['\n']);
                assert(cmd@ =~= before_comment(trimmed(lv)));
                assert(cl@ =~= before_comment(trimmed(lv)).push('\n'));
                assert(parsed_line(lv) == Some(cl@));
            }
            let ghost ob = out@;
            out.push(cl);
            proof {
                assert(string_views(out@) =~= string_views(ob).push(cl@));
                assert(parsed_lines(rem) == seq![cl@] + parsed_lines(rem.drop_first()));
                assert(string_views(ob) + parsed_lines(rem) =~= string_views(out@) + parsed_lines(
                    rem.drop_first(),
                ));
            }
        }
        i = i + 1;
    }
    proof {
        assert(str_views(lines@).skip(lines@.len() as int) =~= Seq::<Seq<char>>::empty());
        assert(parsed_lines(Seq::<Seq<char>>::empty()) == Seq::<Seq<char>>::empty());
        assert(string_views(out@) + Seq::<Seq<char>>::empty() =~= string_views(out@));
    }
    out
}

/// Relies on `core::str::from_utf8`: it succeeds exactly on valid
/// UTF-8 input and then yields that input's decoded characters.
#[verifier::external_body]
fn utf8_to_str(data: &[u8]) -> (r: Option<&str>)
    ensures
        r is Some <==> vstd::utf8::valid_utf8(data@),
        r matches Some(s) ==> s@ == vstd::utf8::decode_utf8(data@) && s.spec_bytes() == data@,
{
    core::str::from_utf8(data).ok()
}

/// Parse a whole command script held in memory into its
/// transmission-ready commands.
///
/// Succeeds exactly when the bytes are valid UTF-8; the commands are
/// the script's lines filtered and normalized as `parsed_lines`
/// specifies.
pub fn from_data(data: &[u8]) -> (r: Result<Vec<String>, AppError>)
    ensures
        r is Ok <==> vstd::utf8::valid_utf8(data@),
        r matches Ok(cmds) ==> string_views(cmds@) == parsed_lines(
            split_lines(vstd::utf8::decode_utf8(data@)),
        ),
        r matches Err(e) ==> e matches AppError::InternalError { message } && message@
            == "invalid utf-8 data"@,
{
    match utf8_to_str(data) {
        None => Err(AppError::InternalError { message: "invalid utf-8 data".to_owned() }),
        Some(s) => {
            let segs = split_str_lines(s);
            let cmds = parse_lines(&segs);
            Ok(cmds)
        },
    }
}

} // verus!
