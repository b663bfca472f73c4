//! Frame files: reading frame numbers out of file names and laying out a
//! run over a directory of frames.

use vstd::prelude::*;
use vstd::string::StrSliceExecFns;
use crate::blend::{frame_ratio, ratio_of_frame, Ratio};
use crate::naming::{
    decimal_digits, digit_char, ends_in_extension, has_extension, has_tag, is_tagged,
    padded_index, tagged_frame_name, tagged_name,
};

verus! {

/// What a regular expression captures in a text: the part of `text` that the
/// group called `group` matched in the leftmost match of `pattern`, or `None`
/// when `pattern` is not a valid expression, when it matches nowhere in
/// `text`, or when it has no such group or the group took no part in the
/// match.
pub uninterp spec fn regex_named_capture(
    pattern: Seq<char>,
    group: Seq<char>,
    text: Seq<char>,
) -> Option<Seq<char>>;

/// Runs `regex::Regex::new` on `pattern`, `Regex::captures` on `text` and
/// `Captures::name` on `group`, and copies the matched text out. Nothing is
/// proved of the result: the contract only gives it its name, on the ground
/// that the regex crate computes it from these three strings alone.
#[verifier::external_body]
fn named_capture(pattern: &str, group: &str, text: &str) -> (out: Option<String>)
    ensures
        out is Some <==> regex_named_capture(pattern@, group@, text@) is Some,
        out is Some ==> out->Some_0@ == regex_named_capture(pattern@, group@, text@)->Some_0,
{
    let re = match regex::Regex::new(pattern) {
        Ok(re) => re,
        Err(_) => return None,
    };
    let caps = match re.captures(text) {
        Some(caps) => caps,
        None => return None,
    };
    match caps.name(group) {
        Some(m) => Some(m.as_str().to_string()),
        None => None,
    }
}

/// The expression that frame file names are held against: any prefix, an
/// underscore, the frame number, a dot and an extension.
pub fn frame_pattern() -> (p: &'static str)
    ensures
        p@ == frame_pattern_text(),
{
    r"(?P<name>.+)_(?P<number>\d+)\.\w+"
}

/// The characters of [`frame_pattern`].
pub open spec fn frame_pattern_text() -> Seq<char> {
    r"(?P<name>.+)_(?P<number>\d+)\.\w+"@
}

/// The name of the group that holds the frame number.
pub fn number_group() -> (g: &'static str)
    ensures
        g@ == number_group_text(),
{
    "number"
}

/// The characters of [`number_group`].
pub open spec fn number_group_text() -> Seq<char> {
    "number"@
}

/// One of the ten ASCII digits.
pub open spec fn is_digit(c: char) -> bool {
    '0' <= c && c <= '9'
}

/// A text made of ASCII digits only.
pub open spec fn all_digits(s: Seq<char>) -> bool {
    forall|i: int| 0 <= i < s.len() ==> is_digit(#[trigger] s[i])
}

/// The number that a sequence of ASCII digits writes in base ten.
pub open spec fn decimal_value(s: Seq<char>) -> nat
    decreases s.len(),
{
    if s.len() == 0 {
        0
    } else {
        (decimal_value(s.drop_last()) * 10 + (s.last() as nat - '0' as nat)) as nat
    }
}

/// The frame number written by `s`: defined when `s` is one or more ASCII
/// digits and the number fits in 32 bits.
pub open spec fn index_of_digits(s: Seq<char>) -> Option<u32> {
    if s.len() > 0 && all_digits(s) && decimal_value(s) <= u32::MAX {
        Some(decimal_value(s) as u32)
    } else {
        None
    }
}

/// The frame number of a file name, given what the frame pattern captured
/// in it.
pub open spec fn index_of_capture(capture: Option<Seq<char>>) -> Option<u32> {
    match capture {
        Some(digits) => index_of_digits(digits),
        None => None,
    }
}

/// The frame number of a file name, or `None` for a name that is to be
/// skipped.
pub open spec fn index_of_name(name: Seq<char>) -> Option<u32> {
    index_of_capture(regex_named_capture(frame_pattern_text(), number_group_text(), name))
}

/// One more digit at the end multiplies the number by ten and adds the
/// digit.
proof fn lemma_value_of_push(s: Seq<char>, c: char)
    requires
        is_digit(c),
    ensures
        decimal_value(s.push(c)) == decimal_value(s) * 10 + (c as nat - '0' as nat),
{
    assert(s.push(c).drop_last() =~= s);
}

/// A zero in front changes neither the number nor that all are digits.
proof fn lemma_leading_zero(s: Seq<char>)
    requires
        all_digits(s),
    ensures
        all_digits(seq!['0'] + s),
        decimal_value(seq!['0'] + s) == decimal_value(s),
    decreases s.len(),
{
    let t = seq!['0'] + s;
    assert forall|i: int| 0 <= i < t.len() implies is_digit(#[trigger] t[i]) by {
        if i > 0 {
            assert(t[i] == s[i - 1]);
        }
    }
    if s.len() == 0 {
        assert(t.drop_last() =~= Seq::<char>::empty());
        assert(decimal_value(t.drop_last()) == 0);
    } else {
        assert(t.drop_last() =~= seq!['0'] + s.drop_last());
        assert(t.last() == s.last());
        assert forall|i: int| 0 <= i < s.drop_last().len() implies is_digit(
            #[trigger] s.drop_last()[i],
        ) by {
            assert(s.drop_last()[i] == s[i]);
        }
        lemma_leading_zero(s.drop_last());
    }
}

/// The digits of a number are ASCII digits that write that number.
pub proof fn lemma_digits_write_the_number(n: nat)
    ensures
        decimal_digits(n).len() > 0,
        all_digits(decimal_digits(n)),
        decimal_value(decimal_digits(n)) == n,
    decreases n,
{
    let d = digit_char((n % 10) as int);
    assert(is_digit(d) && d as nat - '0' as nat == n % 10);
    if n < 10 {
        assert(decimal_digits(n) =~= Seq::<char>::empty().push(d));
        lemma_value_of_push(Seq::<char>::empty(), d);
    } else {
        lemma_digits_write_the_number(n / 10);
        lemma_value_of_push(decimal_digits(n / 10), d);
        let s = decimal_digits(n);
        assert forall|i: int| 0 <= i < s.len() implies is_digit(#[trigger] s[i]) by {
            if i < s.len() - 1 {
                assert(s[i] == decimal_digits(n / 10)[i]);
            }
        }
    }
}

/// The number written into a processed frame's name reads back as the same
/// frame number: padding with zeros does not change what the digits say.
pub proof fn lemma_padded_index_reads_back(n: nat)
    requires
        n <= u32::MAX,
    ensures
        index_of_digits(padded_index(n)) == Some(n as u32),
{
    let d = decimal_digits(n);
    lemma_digits_write_the_number(n);
    let one = seq!['0'] + d;
    let two = seq!['0'] + one;
    let three = seq!['0'] + two;
    lemma_leading_zero(d);
    lemma_leading_zero(one);
    lemma_leading_zero(two);
    assert(seq!['0', '0'] + d =~= two);
    assert(seq!['0', '0', '0'] + d =~= three);
    assert(all_digits(padded_index(n)));
    assert(decimal_value(padded_index(n)) == n);
}

/// Reads a frame number from its digits. A text that is empty, holds
/// anything but ASCII digits, or writes a number above `u32::MAX` gives
/// `None`.
pub fn parse_index(digits: &str) -> (out: Option<u32>)
    ensures
        out == index_of_digits(digits@),
{
    let n = digits.unicode_len();
    if n == 0 {
        return None;
    }
    let mut value: u64 = 0;
    let mut too_big = false;
    let mut i: usize = 0;
    while i < n
        invariant
            i <= n,
            n == digits@.len(),
            forall|k: int| 0 <= k < i ==> is_digit(#[trigger] digits@[k]),
            !too_big ==> value == decimal_value(digits@.take(i as int)),
            !too_big ==> value <= u32::MAX,
            too_big ==> decimal_value(digits@.take(i as int)) > u32::MAX,
        decreases n - i,
    {
        let c = digits.get_char(i);
        if !('0' <= c && c <= '9') {
            return None;
        }
        let d: u64 = (c as u64) - ('0' as u64);
        proof {
            let next = digits@.take(i + 1);
            assert(next.drop_last() =~= digits@.take(i as int));
            assert(next.last() == c);
        }
        if !too_big {
            value = value * 10 + d;
            if value > u32::MAX as u64 {
                too_big = true;
            }
        }
        i += 1;
    }
    assert(digits@.take(n as int) =~= digits@);
    if too_big {
        None
    } else {
        Some(value as u32)
    }
}

/// The frame number for what the frame pattern captured in a file name.
pub fn index_from_capture(capture: Option<String>) -> (out: Option<u32>)
    ensures
        out == index_of_capture(
            match capture {
                Some(s) => Some(s@),
                None => None,
            },
        ),
{
    match capture {
        Some(s) => parse_index(s.as_str()),
        None => None,
    }
}

/// The frame number of a file name of the form `<prefix>_<digits>.<ext>`,
/// or `None` for a name that is to be skipped.
pub fn frame_index(name: &str) -> (out: Option<u32>)
    ensures
        out == index_of_name(name@),
{
    let capture = named_capture(frame_pattern(), number_group(), name);
    index_from_capture(capture)
}

/// What is to be done with one frame file.
#[derive(Clone, Copy, Debug, PartialEq, Eq, Structural)]
pub struct FramePlan {
    /// Position of the file in the list of names.
    pub position: usize,
    /// The frame number read from the file's name.
    pub index: u32,
    /// The interpolation ratio of this frame.
    pub ratio: Ratio,
}

/// The plan of the file at `position`, if its name carries a frame number.
pub open spec fn plan_of(
    names: Seq<Seq<char>>,
    init: int,
    adjust: int,
    position: int,
) -> Option<FramePlan> {
    match index_of_name(names[position]) {
        Some(index) => Some(
            FramePlan {
                position: position as usize,
                index,
                ratio: ratio_of_frame(init, adjust, index as int, names.len() as int),
            },
        ),
        None => None,
    }
}

/// The plans of the first `k` files, in the order of the files; files whose
/// names carry no frame number are left out.
pub open spec fn plans_upto(names: Seq<Seq<char>>, init: int, adjust: int, k: nat) -> Seq<
    FramePlan,
>
    decreases k,
{
    if k == 0 {
        Seq::empty()
    } else {
        let before = plans_upto(names, init, adjust, (k - 1) as nat);
        match plan_of(names, init, adjust, k - 1) {
            Some(plan) => before.push(plan),
            None => before,
        }
    }
}

/// A plan never reorders or invents frames: every plan points at a file
/// among the first `k` whose name carries the plan's frame number, and a
/// plan that comes later in the list points at a file that comes later.
pub proof fn lemma_plans_keep_order(names: Seq<Seq<char>>, init: int, adjust: int, k: nat)
    requires
        k <= names.len(),
        names.len() <= usize::MAX,
    ensures
        plans_upto(names, init, adjust, k).len() <= k,
        forall|i: int|
            0 <= i < plans_upto(names, init, adjust, k).len() ==> {
                let plan = #[trigger] plans_upto(names, init, adjust, k)[i];
                &&& plan.position < k
                &&& index_of_name(names[plan.position as int]) == Some(plan.index)
                &&& plan.ratio == ratio_of_frame(
                    init,
                    adjust,
                    plan.index as int,
                    names.len() as int,
                )
            },
        forall|i: int, j: int|
            0 <= i < j < plans_upto(names, init, adjust, k).len() ==> (#[trigger] plans_upto(
                names,
                init,
                adjust,
                k,
            )[i]).position < (#[trigger] plans_upto(names, init, adjust, k)[j]).position,
    decreases k,
{
    if k > 0 {
        lemma_plans_keep_order(names, init, adjust, (k - 1) as nat);
    }
}

/// The views of a list of names.
pub open spec fn name_texts(names: Seq<String>) -> Seq<Seq<char>> {
    names.map_values(|s: String| s@)
}

/// Plans a run over the given frame files. The number of files is counted
/// once and every ratio is taken against that count. Initial ratio and
/// adjustment are in millionths.
pub fn plan_frames(names: &Vec<String>, init: i64, adjust: i64) -> (plans: Vec<FramePlan>)
    requires
        names@.len() <= u32::MAX,
    ensures
        plans@ == plans_upto(name_texts(names@), init as int, adjust as int, names@.len()),
{
    let total = names.len();
    let ghost texts = name_texts(names@);
    let mut plans: Vec<FramePlan> = Vec::new();
    let mut k: usize = 0;
    while k < total
        invariant
            k <= total,
            total == names@.len(),
            total <= u32::MAX,
            texts == name_texts(names@),
            plans@ == plans_upto(texts, init as int, adjust as int, k as nat),
        decreases total - k,
    {
        assert(texts[k as int] == names@[k as int]@);
        match frame_index(names[k].as_str()) {
            Some(index) => {
                let ratio = frame_ratio(init, adjust, index, total as u32);
                plans.push(FramePlan { position: k, index, ratio });
            },
            None => {},
        }
        k += 1;
    }
    plans
}

/// What a run does with one file of the frame directory.
#[derive(Debug)]
pub enum FrameStep {
    /// The file at this position has the frame extension but its name
    /// carries no frame number: it is reported and passed over.
    Skip(usize),
    /// The file is decoded, put through the pipeline as the plan says and
    /// written under the given name.
    Process(FramePlan, String),
}

/// A step with its output name as a sequence of characters.
pub ghost enum FrameStepView {
    Skip(usize),
    Process(FramePlan, Seq<char>),
}

impl View for FrameStep {
    type V = FrameStepView;

    open spec fn view(&self) -> FrameStepView {
        match *self {
            FrameStep::Skip(position) => FrameStepView::Skip(position),
            FrameStep::Process(plan, output) => FrameStepView::Process(plan, output@),
        }
    }
}

/// The step for the file at `position`: none for a file without the frame
/// extension, a skip for one whose name carries no frame number, and else
/// its plan with the name of the processed frame.
pub open spec fn step_of(
    names: Seq<Seq<char>>,
    prefix: Seq<char>,
    ext: Seq<char>,
    init: int,
    adjust: int,
    position: int,
) -> Option<FrameStepView> {
    if !ends_in_extension(names[position], ext) {
        None
    } else {
        match plan_of(names, init, adjust, position) {
            Some(plan) => Some(
                FrameStepView::Process(plan, tagged_name(prefix, plan.index as nat, ext)),
            ),
            None => Some(FrameStepView::Skip(position as usize)),
        }
    }
}

/// The steps for the first `k` files, in the order of the files.
pub open spec fn steps_upto(
    names: Seq<Seq<char>>,
    prefix: Seq<char>,
    ext: Seq<char>,
    init: int,
    adjust: int,
    k: nat,
) -> Seq<FrameStepView>
    decreases k,
{
    if k == 0 {
        Seq::empty()
    } else {
        let before = steps_upto(names, prefix, ext, init, adjust, (k - 1) as nat);
        match step_of(names, prefix, ext, init, adjust, k - 1) {
            Some(step) => before.push(step),
            None => before,
        }
    }
}

/// Lays out a whole run over the files of a frame directory, listed in the
/// order in which they are to be visited. Every file counts towards the
/// number of frames; only files with the extension `ext` get a step.
/// Processed frames are named after `prefix`. Initial ratio and adjustment
/// are in millionths.
pub fn frame_steps(names: &Vec<String>, prefix: &str, ext: &str, init: i64, adjust: i64) -> (steps:
    Vec<FrameStep>)
    requires
        names@.len() <= u32::MAX,
    ensures
        steps@.len() == steps_upto(
            name_texts(names@),
            prefix@,
            ext@,
            init as int,
            adjust as int,
            names@.len(),
        ).len(),
        forall|i: int|
            0 <= i < steps@.len() ==> (#[trigger] steps@[i])@ == steps_upto(
                name_texts(names@),
                prefix@,
                ext@,
                init as int,
                adjust as int,
                names@.len(),
            )[i],
{
    let total = names.len();
    let ghost texts = name_texts(names@);
    let mut steps: Vec<FrameStep> = Vec::new();
    let mut k: usize = 0;
    while k < total
        invariant
            k <= total,
            total == names@.len(),
            total <= u32::MAX,
            texts == name_texts(names@),
            steps@.len() == steps_upto(texts, prefix@, ext@, init as int, adjust as int, k as nat).len(),
            forall|i: int|
                0 <= i < steps@.len() ==> (#[trigger] steps@[i])@ == steps_upto(
                    texts,
                    prefix@,
                    ext@,
                    init as int,
                    adjust as int,
                    k as nat,
                )[i],
        decreases total - k,
    {
        assert(texts[k as int] == names@[k as int]@);
        let name = names[k].as_str();
        if has_extension(name, ext) {
            match frame_index(name) {
                Some(index) => {
                    let ratio = frame_ratio(init, adjust, index, total as u32);
                    let output = tagged_frame_name(prefix, index, ext);
                    steps.push(FrameStep::Process(FramePlan { position: k, index, ratio }, output));
                },
                None => {
                    steps.push(FrameStep::Skip(k));
                },
            }
        }
        k += 1;
    }
    steps
}

/// The positions, among the first `k` files, of those whose names do not
/// carry the mark of a processed frame, in rising order.
pub open spec fn stale_upto(names: Seq<Seq<char>>, k: nat) -> Seq<usize>
    decreases k,
{
    if k == 0 {
        Seq::empty()
    } else {
        let before = stale_upto(names, (k - 1) as nat);
        if has_tag(names[k - 1]) {
            before
        } else {
            before.push((k - 1) as usize)
        }
    }
}

/// Picks the files to remove once a run is over: every file whose name does
/// not carry the mark of a processed frame.
pub fn stale_files(names: &Vec<String>) -> (stale: Vec<usize>)
    ensures
        stale@ == stale_upto(name_texts(names@), names@.len()),
{
    let total = names.len();
    let ghost texts = name_texts(names@);
    let mut stale: Vec<usize> = Vec::new();
    let mut k: usize = 0;
    while k < total
        invariant
            k <= total,
            total == names@.len(),
            texts == name_texts(names@),
            stale@ == stale_upto(texts, k as nat),
        decreases total - k,
    {
        assert(texts[k as int] == names@[k as int]@);
        if !is_tagged(names[k].as_str()) {
            stale.push(k);
        }
        k += 1;
    }
    stale
}

} // verus!
