//! The diagnostic report: the frames of a captured call stack, innermost
//! first, and their plain-text form.
use vstd::prelude::*;
use vstd::string::StringExecFns;

verus! {

/// Where a frame's code lies in the source.
#[derive(Debug)]
pub struct SourceLocation {
    pub file: String,
    pub line: u32,
}

/// One frame of a captured call stack. Either part may be missing when
/// debug information does not resolve it.
#[derive(Debug)]
pub struct StackFrame {
    pub name: Option<String>,
    pub location: Option<SourceLocation>,
}

/// The frames of one capture, innermost first.
#[derive(Debug)]
pub struct DiagnosticReport {
    pub frames: Vec<StackFrame>,
}

/// The first line of every report.
pub open spec fn banner() -> Seq<char> {
    "Model training crashed. Stack trace:"@
}

/// The character of a decimal digit.
pub open spec fn digit_char(d: nat) -> char
    recommends
        d < 10,
{
    seq!['0', '1', '2', '3', '4', '5', '6', '7', '8', '9'][d as int]
}

/// The decimal digits of `n`, without leading zeros.
pub open spec fn decimal(n: nat) -> Seq<char>
    decreases n,
{
    if n < 10 {
        seq![digit_char(n)]
    } else {
        decimal(n / 10) + seq![digit_char(n % 10)]
    }
}

/// The lines of one frame: its name (an empty line when it has none), then
/// `  at <file>:<line>` when its location is known.
pub open spec fn frame_text(f: StackFrame) -> Seq<char> {
    let name_line = match f.name {
        Some(n) => n@ + seq!['\n'],
        None => seq!['\n'],
    };
    match f.location {
        Some(loc) => name_line + "  at "@ + loc.file@ + seq![':'] + decimal(loc.line as nat)
            + seq!['\n'],
        None => name_line,
    }
}

/// The lines of all frames, in order.
pub open spec fn frames_text(frames: Seq<StackFrame>) -> Seq<char>
    decreases frames.len(),
{
    if frames.len() == 0 {
        Seq::empty()
    } else {
        frames_text(frames.drop_last()) + frame_text(frames.last())
    }
}

/// The whole report: the banner line, the frames, and a closing newline.
pub open spec fn report_text(frames: Seq<StackFrame>) -> Seq<char> {
    banner() + seq!['\n'] + frames_text(frames) + seq!['\n']
}

fn digit_str(d: u32) -> (r: &'static str)
    requires
        d < 10,
    ensures
        r@ == seq![digit_char(d as nat)],
{
    match d {
        0 => {
            proof {
                reveal_strlit("0");
            }
            "0"
        },
        1 => {
            proof {
                reveal_strlit("1");
            }
            "1"
        },
        2 => {
            proof {
                reveal_strlit("2");
            }
            "2"
        },
        3 => {
            proof {
                reveal_strlit("3");
            }
            "3"
        },
        4 => {
            proof {
                reveal_strlit("4");
            }
            "4"
        },
        5 => {
            proof {
                reveal_strlit("5");
            }
            "5"
        },
        6 => {
            proof {
                reveal_strlit("6");
            }
            "6"
        },
        7 => {
            proof {
                reveal_strlit("7");
            }
            "7"
        },
        8 => {
            proof {
                reveal_strlit("8");
            }
            "8"
        },
        _ => {
            proof {
                reveal_strlit("9");
            }
            "9"
        },
    }
}

/// Appends the decimal digits of `n`.
fn push_decimal(out: &mut String, n: u32)
    ensures
        final(out)@ == old(out)@ + decimal(n as nat),
    decreases n,
{
    if n >= 10 {
        push_decimal(out, n / 10);
    }
    out.append(digit_str(n % 10));
    proof {
        if n >= 10 {
            assert(old(out)@ + decimal((n / 10) as nat) + seq![digit_char((n % 10) as nat)]
                =~= old(out)@ + decimal(n as nat));
        } else {
            assert(decimal(n as nat) == seq![digit_char(n as nat)]);
        }
    }
}

/// Appends the lines of one frame.
fn push_frame_text(out: &mut String, f: &StackFrame)
    ensures
        final(out)@ == old(out)@ + frame_text(*f),
{
    proof {
        reveal_strlit("\n");
        reveal_strlit("  at ");
        reveal_strlit(":");
    }
    match &f.name {
        Some(n) => out.append(n.as_str()),
        None => {},
    }
    out.append("\n");
    match &f.location {
        Some(loc) => {
            out.append("  at ");
            out.append(loc.file.as_str());
            out.append(":");
            push_decimal(out, loc.line);
            out.append("\n");
            assert(final(out)@ =~= old(out)@ + frame_text(*f));
        },
        None => {
            assert(final(out)@ =~= old(out)@ + frame_text(*f));
        },
    }
}

impl DiagnosticReport {
    /// A report with no frames.
    pub fn new() -> (r: DiagnosticReport)
        ensures
            r.frames@ == Seq::<StackFrame>::empty(),
    {
        DiagnosticReport { frames: Vec::new() }
    }

    /// The report of a stack walk whose frames came innermost first: every
    /// frame is kept, in that order, also those that lack a name or a
    /// location.
    pub fn from_frames(frames: Vec<StackFrame>) -> (r: DiagnosticReport)
        ensures
            r.frames@ == frames@,
    {
        DiagnosticReport { frames }
    }

    /// Adds the next outer frame.
    pub fn push_frame(&mut self, frame: StackFrame)
        ensures
            final(self).frames@ == old(self).frames@.push(frame),
    {
        self.frames.push(frame);
    }

    /// How many frames the report holds.
    pub fn frame_count(&self) -> (r: usize)
        ensures
            r == self.frames@.len(),
    {
        self.frames.len()
    }

    /// The report as text: the banner line, then each frame innermost first.
    pub fn render(&self) -> (r: String)
        ensures
            r@ == report_text(self.frames@),
    {
        let mut out = String::from_str("Model training crashed. Stack trace:");
        proof {
            reveal_strlit("\n");
        }
        out.append("\n");
        let n = self.frames.len();
        let mut i: usize = 0;
        while i < n
            invariant
                n == self.frames@.len(),
                i <= n,
                out@ == banner() + seq!['\n'] + frames_text(self.frames@.take(i as int)),
            decreases n - i,
        {
            push_frame_text(&mut out, &self.frames[i]);
            assert(self.frames@.take(i + 1).drop_last() =~= self.frames@.take(i as int));
            assert(out@ =~= banner() + seq!['\n'] + frames_text(self.frames@.take(i + 1)));
            i = i + 1;
        }
        assert(self.frames@.take(n as int) =~= self.frames@);
        out.append("\n");
        assert(out@ =~= report_text(self.frames@));
        out
    }
}

/// How many lines `s` ends, that is how many newlines it holds.
pub open spec fn line_count(s: Seq<char>) -> nat
    decreases s.len(),
{
    if s.len() == 0 {
        0
    } else {
        line_count(s.drop_last()) + (if s.last() == '\n' {
            1nat
        } else {
            0nat
        })
    }
}

/// A frame whose name and file, where present, are single-line text.
pub open spec fn single_line_parts(f: StackFrame) -> bool {
    (f.name matches Some(n) ==> !n@.contains('\n')) && (f.location matches Some(loc)
        ==> !loc.file@.contains('\n'))
}

/// A frame with both its name and its location resolved.
pub open spec fn fully_resolved(f: StackFrame) -> bool {
    f.name is Some && f.location is Some && single_line_parts(f)
}

/// The number of lines a frame takes: one for its name, one for its location.
pub open spec fn frame_lines(f: StackFrame) -> nat {
    if f.location is Some {
        2
    } else {
        1
    }
}

/// The number of lines the frames take together.
pub open spec fn frames_lines(frames: Seq<StackFrame>) -> nat
    decreases frames.len(),
{
    if frames.len() == 0 {
        0
    } else {
        frames_lines(frames.drop_last()) + frame_lines(frames.last())
    }
}

proof fn lemma_line_count_add(a: Seq<char>, b: Seq<char>)
    ensures
        line_count(a + b) == line_count(a) + line_count(b),
    decreases b.len(),
{
    if b.len() > 0 {
        assert((a + b).drop_last() =~= a + b.drop_last());
        lemma_line_count_add(a, b.drop_last());
    } else {
        assert(a + b =~= a);
    }
}

proof fn lemma_line_count_free(s: Seq<char>)
    requires
        !s.contains('\n'),
    ensures
        line_count(s) == 0,
    decreases s.len(),
{
    if s.len() > 0 {
        assert(s.last() == s[s.len() - 1]);
        assert forall|c: char| s.drop_last().contains(c) implies s.contains(c) by {
            let i = choose|i: int| 0 <= i < s.drop_last().len() && s.drop_last()[i] == c;
            assert(s[i] == c);
        }
        lemma_line_count_free(s.drop_last());
    }
}

proof fn lemma_line_count_one(c: char)
    ensures
        line_count(seq![c]) == (if c == '\n' {
            1nat
        } else {
            0nat
        }),
{
    assert(seq![c].drop_last() =~= Seq::<char>::empty());
    assert(seq![c].last() == c);
    assert(line_count(seq![c]) == line_count(Seq::<char>::empty()) + (if c == '\n' {
        1nat
    } else {
        0nat
    }));
}

proof fn lemma_decimal_single_line(n: nat)
    ensures
        line_count(decimal(n)) == 0,
    decreases n,
{
    if n < 10 {
        lemma_line_count_one(digit_char(n));
    } else {
        lemma_decimal_single_line(n / 10);
        lemma_line_count_one(digit_char(n % 10));
        lemma_line_count_add(decimal(n / 10), seq![digit_char(n % 10)]);
    }
}

proof fn lemma_frame_lines(f: StackFrame)
    requires
        single_line_parts(f),
    ensures
        line_count(frame_text(f)) == frame_lines(f),
{
    reveal_strlit("  at ");
    lemma_line_count_one('\n');
    lemma_line_count_one(':');
    let name_line = match f.name {
        Some(n) => n@ + seq!['\n'],
        None => seq!['\n'],
    };
    if let Some(n) = f.name {
        lemma_line_count_free(n@);
        lemma_line_count_add(n@, seq!['\n']);
    }
    assert(line_count(name_line) == 1);
    if let Some(loc) = f.location {
        let at: Seq<char> = "  at "@;
        assert(at =~= seq![' ', ' ', 'a', 't', ' ']);
        assert(!at.contains('\n')) by {
            if at.contains('\n') {
                let i = choose|i: int| 0 <= i < at.len() && at[i] == '\n';
                assert(at[i] != '\n');
            }
        }
        lemma_line_count_free(at);
        lemma_line_count_free(loc.file@);
        lemma_decimal_single_line(loc.line as nat);
        lemma_line_count_add(name_line, at);
        lemma_line_count_add(name_line + at, loc.file@);
        lemma_line_count_add(name_line + at + loc.file@, seq![':']);
        lemma_line_count_add(name_line + at + loc.file@ + seq![':'], decimal(loc.line as nat));
        lemma_line_count_add(
            name_line + at + loc.file@ + seq![':'] + decimal(loc.line as nat),
            seq!['\n'],
        );
    }
}

/// The text of the frames lists them in the order the report holds them:
/// the text of two runs of frames is the text of the first, then that of
/// the second.
pub proof fn lemma_frames_text_in_order(a: Seq<StackFrame>, b: Seq<StackFrame>)
    ensures
        frames_text(a + b) == frames_text(a) + frames_text(b),
    decreases b.len(),
{
    if b.len() == 0 {
        assert(a + b =~= a);
        assert(frames_text(a) + frames_text(b) =~= frames_text(a));
    } else {
        assert((a + b).drop_last() =~= a + b.drop_last());
        assert((a + b).last() == b.last());
        lemma_frames_text_in_order(a, b.drop_last());
        assert(frames_text(a) + frames_text(b) =~= frames_text(a) + frames_text(b.drop_last())
            + frame_text(b.last()));
    }
}

/// No frame is dropped from the text: each takes one line for its name (an
/// empty one when the name is missing) and one more when its location is
/// known.
pub proof fn lemma_every_frame_listed(frames: Seq<StackFrame>)
    requires
        forall|i: int| 0 <= i < frames.len() ==> single_line_parts(#[trigger] frames[i]),
    ensures
        line_count(frames_text(frames)) == frames_lines(frames),
        frames_lines(frames) >= frames.len(),
    decreases frames.len(),
{
    if frames.len() > 0 {
        let init = frames.drop_last();
        assert forall|i: int| 0 <= i < init.len() implies single_line_parts(#[trigger] init[i]) by {
            assert(init[i] == frames[i]);
        }
        lemma_every_frame_listed(init);
        lemma_frame_lines(frames.last());
        lemma_line_count_add(frames_text(init), frame_text(frames.last()));
    }
}

/// A report of `n` fully resolved frames has exactly two lines per frame
/// after its banner line, and one closing empty line.
pub proof fn lemma_resolved_report_lines(frames: Seq<StackFrame>)
    requires
        forall|i: int| 0 <= i < frames.len() ==> fully_resolved(#[trigger] frames[i]),
    ensures
        line_count(frames_text(frames)) == 2 * frames.len(),
        line_count(report_text(frames)) == 2 * frames.len() + 2,
    decreases frames.len(),
{
    if frames.len() > 0 {
        let init = frames.drop_last();
        assert forall|i: int| 0 <= i < init.len() implies fully_resolved(#[trigger] init[i]) by {
            assert(init[i] == frames[i]);
        }
        lemma_resolved_report_lines(init);
        assert(fully_resolved(frames[frames.len() - 1]));
        lemma_frame_lines(frames.last());
        lemma_line_count_add(frames_text(init), frame_text(frames.last()));
    }
    reveal_strlit("Model training crashed. Stack trace:");
    assert(!banner().contains('\n')) by {
        if banner().contains('\n') {
            let i = choose|i: int| 0 <= i < banner().len() && banner()[i] == '\n';
            assert(banner()[i] != '\n');
        }
    }
    lemma_line_count_free(banner());
    lemma_line_count_one('\n');
    lemma_line_count_add(banner(), seq!['\n']);
    lemma_line_count_add(banner() + seq!['\n'], frames_text(frames));
    lemma_line_count_add(banner() + seq!['\n'] + frames_text(frames), seq!['\n']);
}

} // verus!
