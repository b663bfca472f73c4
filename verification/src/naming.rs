//! Names of processed frames and of image formats.

use vstd::prelude::*;
use vstd::string::{StrSliceExecFns, StringExecFns};

verus! {

/// The character that writes the digit `d`.
pub open spec fn digit_char(d: int) -> char {
    if d == 0 {
        '0'
    } else if d == 1 {
        '1'
    } else if d == 2 {
        '2'
    } else if d == 3 {
        '3'
    } else if d == 4 {
        '4'
    } else if d == 5 {
        '5'
    } else if d == 6 {
        '6'
    } else if d == 7 {
        '7'
    } else if d == 8 {
        '8'
    } else {
        '9'
    }
}

/// The digits of `n` in base ten, most significant first, without leading
/// zeros.
pub open spec fn decimal_digits(n: nat) -> Seq<char>
    decreases n,
{
    if n < 10 {
        seq![digit_char(n as int)]
    } else {
        decimal_digits(n / 10).push(digit_char((n % 10) as int))
    }
}

/// The digits of `n` with zeros put in front until there are at least four.
pub open spec fn padded_index(n: nat) -> Seq<char> {
    if n < 10 {
        seq!['0', '0', '0'] + decimal_digits(n)
    } else if n < 100 {
        seq!['0', '0'] + decimal_digits(n)
    } else if n < 1000 {
        seq!['0'] + decimal_digits(n)
    } else {
        decimal_digits(n)
    }
}

/// The mark that a processed frame carries in its file name.
pub open spec fn tag_text() -> Seq<char> {
    seq!['_', 'f', 'x', '_']
}

/// The file name of processed frame `index`:
/// `<prefix>_fx_<index, four digits or more>.<ext>`.
pub open spec fn tagged_name(prefix: Seq<char>, index: nat, ext: Seq<char>) -> Seq<char> {
    prefix + tag_text() + padded_index(index) + seq!['.'] + ext
}

/// Whether the mark of a processed frame starts at position `i` of `s`.
pub open spec fn tag_at(s: Seq<char>, i: int) -> bool {
    &&& 0 <= i
    &&& i + 4 <= s.len()
    &&& s[i] == '_'
    &&& s[i + 1] == 'f'
    &&& s[i + 2] == 'x'
    &&& s[i + 3] == '_'
}

/// Whether `s` holds the mark of a processed frame anywhere.
pub open spec fn has_tag(s: Seq<char>) -> bool {
    exists|i: int| tag_at(s, i)
}

/// The name of a processed frame always carries the mark, so a frame that
/// was written is never taken for one that is still to be removed.
pub proof fn lemma_tagged_name_has_tag(prefix: Seq<char>, index: nat, ext: Seq<char>)
    ensures
        has_tag(tagged_name(prefix, index, ext)),
{
    let name = tagged_name(prefix, index, ext);
    let at = prefix.len() as int;
    assert(name.len() >= at + 4);
    assert(name[at] == tag_text()[0]);
    assert(name[at + 1] == tag_text()[1]);
    assert(name[at + 2] == tag_text()[2]);
    assert(name[at + 3] == tag_text()[3]);
    assert(tag_at(name, at));
}

/// The name of a processed frame ends in a dot and the extension it was
/// given.
pub proof fn lemma_tagged_name_has_extension(prefix: Seq<char>, index: nat, ext: Seq<char>)
    ensures
        ends_in_extension(tagged_name(prefix, index, ext), ext),
{
    let name = tagged_name(prefix, index, ext);
    let stem = prefix + tag_text() + padded_index(index);
    assert(name =~= stem + seq!['.'] + ext);
    assert(stem.len() >= 4);
    assert(name[name.len() - ext.len() - 1] == '.');
    assert(name.subrange(name.len() - ext.len(), name.len() as int) =~= ext);
}

/// The text of one digit.
fn digit_text(d: u32) -> (t: &'static str)
    requires
        d < 10,
    ensures
        t@ == seq![digit_char(d as int)],
{
    proof {
        reveal_strlit("0");
        reveal_strlit("1");
        reveal_strlit("2");
        reveal_strlit("3");
        reveal_strlit("4");
        reveal_strlit("5");
        reveal_strlit("6");
        reveal_strlit("7");
        reveal_strlit("8");
        reveal_strlit("9");
    }
    let t = if d == 0 {
        "0"
    } else if d == 1 {
        "1"
    } else if d == 2 {
        "2"
    } else if d == 3 {
        "3"
    } else if d == 4 {
        "4"
    } else if d == 5 {
        "5"
    } else if d == 6 {
        "6"
    } else if d == 7 {
        "7"
    } else if d == 8 {
        "8"
    } else {
        "9"
    };
    assert(t@ =~= seq![digit_char(d as int)]);
    t
}

/// Writes `n` in base ten at the end of `out`.
fn append_decimal(out: &mut String, n: u32)
    ensures
        final(out)@ == old(out)@ + decimal_digits(n as nat),
    decreases n,
{
    if n >= 10 {
        append_decimal(out, n / 10);
    }
    out.append(digit_text(n % 10));
    proof {
        if n >= 10 {
            assert(out@ =~= old(out)@ + decimal_digits((n / 10) as nat).push(
                digit_char((n % 10) as int),
            ));
        } else {
            assert(out@ =~= old(out)@ + seq![digit_char(n as int)]);
        }
    }
}

/// Builds the file name under which processed frame `index` is written.
pub fn tagged_frame_name(prefix: &str, index: u32, ext: &str) -> (name: String)
    ensures
        name@ == tagged_name(prefix@, index as nat, ext@),
{
    proof {
        reveal_strlit("_fx_");
        reveal_strlit("0");
        reveal_strlit("00");
        reveal_strlit("000");
        reveal_strlit(".");
    }
    let mut name = String::from_str(prefix);
    name.append("_fx_");
    assert("_fx_"@ =~= tag_text());
    if index < 10 {
        name.append("000");
        assert("000"@ =~= seq!['0', '0', '0']);
    } else if index < 100 {
        name.append("00");
        assert("00"@ =~= seq!['0', '0']);
    } else if index < 1000 {
        name.append("0");
        assert("0"@ =~= seq!['0']);
    }
    append_decimal(&mut name, index);
    name.append(".");
    assert("."@ =~= seq!['.']);
    name.append(ext);
    assert(name@ =~= tagged_name(prefix@, index as nat, ext@));
    name
}

/// Tells whether a file name carries the mark of a processed frame. Files
/// without it are the ones to remove once a run is over.
pub fn is_tagged(name: &str) -> (found: bool)
    ensures
        found == has_tag(name@),
{
    let n = name.unicode_len();
    let mut i: usize = 0;
    while i < n && n - i >= 4
        invariant
            i <= n,
            n == name@.len(),
            forall|j: int| 0 <= j < i ==> !tag_at(name@, j),
        decreases n - i,
    {
        if name.get_char(i) == '_' && name.get_char(i + 1) == 'f' && name.get_char(i + 2) == 'x'
            && name.get_char(i + 3) == '_' {
            assert(tag_at(name@, i as int));
            return true;
        }
        i += 1;
    }
    assert forall|j: int| !tag_at(name@, j) by {
        if tag_at(name@, j) {
            assert(j < i);
        }
    }
    false
}

/// The image file formats that frames are stored in.
#[derive(Clone, Copy, Debug, PartialEq, Eq, Structural)]
pub enum ImageFormat {
    Png,
    Bmp,
}

/// The format that a requested type name stands for: `bmp`, with or
/// without a dot in front, asks for BMP, and every other name for PNG.
pub open spec fn format_of(requested: Seq<char>) -> ImageFormat {
    if requested == seq!['b', 'm', 'p'] || requested == seq!['.', 'b', 'm', 'p'] {
        ImageFormat::Bmp
    } else {
        ImageFormat::Png
    }
}

/// The file extension of a format, without a dot.
pub open spec fn extension_text(format: ImageFormat) -> Seq<char> {
    match format {
        ImageFormat::Png => seq!['p', 'n', 'g'],
        ImageFormat::Bmp => seq!['b', 'm', 'p'],
    }
}

/// Whether `name` is something, a dot, and then `ext`.
pub open spec fn ends_in_extension(name: Seq<char>, ext: Seq<char>) -> bool {
    &&& name.len() > ext.len() + 1
    &&& name[name.len() - ext.len() - 1] == '.'
    &&& name.subrange(name.len() - ext.len(), name.len() as int) == ext
}

/// Tells whether two texts hold the same characters.
pub fn same_text(a: &str, b: &str) -> (same: bool)
    ensures
        same == (a@ == b@),
{
    let n = a.unicode_len();
    if b.unicode_len() != n {
        return false;
    }
    let mut i: usize = 0;
    while i < n
        invariant
            i <= n,
            n == a@.len(),
            n == b@.len(),
            forall|k: int| 0 <= k < i ==> a@[k] == b@[k],
        decreases n - i,
    {
        if a.get_char(i) != b.get_char(i) {
            return false;
        }
        i += 1;
    }
    assert(a@ =~= b@);
    true
}

/// Chooses the format for a requested type name.
pub fn image_format(requested: &str) -> (format: ImageFormat)
    ensures
        format == format_of(requested@),
{
    proof {
        reveal_strlit("bmp");
        reveal_strlit(".bmp");
        assert("bmp"@ =~= seq!['b', 'm', 'p']);
        assert(".bmp"@ =~= seq!['.', 'b', 'm', 'p']);
    }
    if same_text(requested, "bmp") || same_text(requested, ".bmp") {
        ImageFormat::Bmp
    } else {
        ImageFormat::Png
    }
}

/// The file extension of a format, without a dot.
pub fn extension(format: ImageFormat) -> (ext: &'static str)
    ensures
        ext@ == extension_text(format),
{
    proof {
        reveal_strlit("png");
        reveal_strlit("bmp");
        assert("png"@ =~= seq!['p', 'n', 'g']);
        assert("bmp"@ =~= seq!['b', 'm', 'p']);
    }
    match format {
        ImageFormat::Png => "png",
        ImageFormat::Bmp => "bmp",
    }
}

/// Tells whether a file name ends in a dot and the given extension, with
/// something in front of the dot.
pub fn has_extension(name: &str, ext: &str) -> (found: bool)
    ensures
        found == ends_in_extension(name@, ext@),
{
    let n = name.unicode_len();
    let m = ext.unicode_len();
    if n <= m || n - m <= 1 {
        return false;
    }
    let start = n - m;
    if name.get_char(start - 1) != '.' {
        return false;
    }
    let mut i: usize = 0;
    while i < m
        invariant
            i <= m,
            m == ext@.len(),
            n == name@.len(),
            start == n - m,
            m < n,
            forall|k: int| 0 <= k < i ==> name@[start + k] == ext@[k],
        decreases m - i,
    {
        if name.get_char(start + i) != ext.get_char(i) {
            assert(name@.subrange(start as int, n as int)[i as int] != ext@[i as int]);
            return false;
        }
        i += 1;
    }
    assert(name@.subrange(start as int, n as int) =~= ext@);
    true
}

} // verus!
