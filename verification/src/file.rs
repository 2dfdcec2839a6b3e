//! The text of a scene description.
//!
//! The grammar is stated as functions on the bytes of the text, each from a
//! position to the position where what it describes ends. The parsers find
//! where the numerals lie; what number a numeral stands for is left to the
//! caller, who reads the bytes of the span.
use vstd::prelude::*;

verus! {

/// The kinds of byte that the grammar takes in runs.
#[derive(Clone, Copy, Debug, PartialEq, Eq, Structural)]
pub enum Class {
    /// A space or a tab.
    Blank,
    /// A space, a tab, a line feed or a carriage return.
    Space,
    /// A decimal digit.
    Digit,
    /// Anything but a line feed or a carriage return.
    Inline,
}

/// Whether a byte is of a class.
pub open spec fn member(class: Class, byte: u8) -> bool {
    match class {
        Class::Blank => byte == 0x20 || byte == 0x09,
        Class::Space => byte == 0x20 || byte == 0x09 || byte == 0x0a || byte == 0x0d,
        Class::Digit => 0x30 <= byte <= 0x39,
        Class::Inline => byte != 0x0a && byte != 0x0d,
    }
}

/// Where the longest run of bytes of a class that starts at `at` ends.
pub open spec fn run_end(s: Seq<u8>, at: int, class: Class) -> int
    decreases s.len() - at,
{
    if 0 <= at < s.len() && member(class, s[at]) {
        run_end(s, at + 1, class)
    } else {
        at
    }
}

/// Whether the byte at `at` is `byte`.
pub open spec fn has(s: Seq<u8>, at: int, byte: u8) -> bool {
    0 <= at < s.len() && s[at] == byte
}

/// Whether the byte at `at` is the lower-case letter `lower` or its capital.
pub open spec fn has_letter(s: Seq<u8>, at: int, lower: u8) -> bool {
    0 <= at < s.len() && (s[at] == lower || s[at] + 0x20 == lower)
}

/// Where an optional sign that starts at `at` ends.
pub open spec fn sign_end(s: Seq<u8>, at: int) -> int {
    if has(s, at, 0x2b) || has(s, at, 0x2d) {
        at + 1
    } else {
        at
    }
}

/// Where the digits of a numeral end: digits with an optional point and more
/// digits after it, or a point and digits.
pub open spec fn mantissa_end(s: Seq<u8>, at: int) -> Option<int> {
    let whole = run_end(s, at, Class::Digit);
    if whole > at {
        if has(s, whole, 0x2e) {
            Some(run_end(s, whole + 1, Class::Digit))
        } else {
            Some(whole)
        }
    } else if has(s, at, 0x2e) && run_end(s, at + 1, Class::Digit) > at + 1 {
        Some(run_end(s, at + 1, Class::Digit))
    } else {
        None
    }
}

/// Where an optional exponent ends: the letter `e`, an optional sign and
/// digits. An `e` without digits spoils the numeral.
pub open spec fn exponent_end(s: Seq<u8>, at: int) -> Option<int> {
    if has_letter(s, at, 0x65) {
        let from = sign_end(s, at + 1);
        let to = run_end(s, from, Class::Digit);
        if to > from {
            Some(to)
        } else {
            None
        }
    } else {
        Some(at)
    }
}

/// Where one of the words `nan` and `inf` ends, in any mix of cases.
pub open spec fn word_end(s: Seq<u8>, at: int) -> Option<int> {
    if has_letter(s, at, 0x6e) && has_letter(s, at + 1, 0x61) && has_letter(s, at + 2, 0x6e) {
        Some(at + 3)
    } else if has_letter(s, at, 0x69) && has_letter(s, at + 1, 0x6e) && has_letter(
        s,
        at + 2,
        0x66,
    ) {
        Some(at + 3)
    } else {
        None
    }
}

/// Where a numeral ends: a signed decimal number with an optional exponent,
/// or one of the words for what is not a number and for infinity.
pub open spec fn numeral_end(s: Seq<u8>, at: int) -> Option<int> {
    match mantissa_end(s, sign_end(s, at)) {
        Some(digits) => exponent_end(s, digits),
        None => word_end(s, at),
    }
}

/// Where a comment ends: a `#` and at least one more byte, up to the end of the line.
pub open spec fn comment_end(s: Seq<u8>, at: int) -> Option<int> {
    if has(s, at, 0x23) && run_end(s, at + 1, Class::Inline) > at + 1 {
        Some(run_end(s, at + 1, Class::Inline))
    } else {
        None
    }
}

/// Where what may follow an item ends: space, then a comment, then space, each optional.
pub open spec fn trail_end(s: Seq<u8>, at: int) -> int {
    let spaced = run_end(s, at, Class::Space);
    match comment_end(s, spaced) {
        Some(commented) => run_end(s, commented, Class::Space),
        None => run_end(s, spaced, Class::Space),
    }
}

/// Where the bytes of an item lie in the text: from `start` up to `end`.
#[derive(Clone, Copy, Debug, PartialEq, Eq, Structural)]
pub struct Span {
    pub start: usize,
    pub end: usize,
}

/// A number in the text: optional space, a numeral, and what may follow an
/// item. Gives where the rest of the text begins and where the numeral lies.
pub open spec fn number_at(s: Seq<u8>, at: int) -> Option<(int, (int, int))> {
    let start = run_end(s, at, Class::Space);
    match numeral_end(s, start) {
        Some(end) => Some((trail_end(s, end), (start, end))),
        None => None,
    }
}

/// Three numbers in a row.
pub open spec fn triple_at(s: Seq<u8>, at: int) -> Option<(int, Seq<(int, int)>)> {
    match number_at(s, at) {
        Some((after_x, x)) => match number_at(s, after_x) {
            Some((after_y, y)) => match number_at(s, after_y) {
                Some((after_z, z)) => Some((after_z, seq![x, y, z])),
                None => None,
            },
            None => None,
        },
        None => None,
    }
}

/// The bytes of the word `LookAt`.
pub open spec fn keyword() -> Seq<u8> {
    seq![0x4cu8, 0x6fu8, 0x6fu8, 0x6bu8, 0x41u8, 0x74u8]
}

/// A camera placement: the word `LookAt`, at least one blank, and three
/// triples: the eye, the target and the up direction.
pub open spec fn look_at_spec(s: Seq<u8>) -> Option<(int, Seq<Seq<(int, int)>>)> {
    if s.len() >= 6 && s.subrange(0, 6) == keyword() && run_end(s, 6, Class::Blank) > 6 {
        match triple_at(s, run_end(s, 6, Class::Blank)) {
            Some((after_eye, eye)) => match triple_at(s, after_eye) {
                Some((after_target, target)) => match triple_at(s, after_target) {
                    Some((rest, up)) => Some((rest, seq![eye, target, up])),
                    None => None,
                },
                None => None,
            },
            None => None,
        }
    } else {
        None
    }
}

/// A run ends at or after its start and inside the text; up to its end every
/// byte is of the class, and the byte at its end, if there is one, is not.
pub proof fn lemma_run(s: Seq<u8>, at: int, class: Class)
    requires
        0 <= at <= s.len(),
    ensures
        at <= run_end(s, at, class) <= s.len(),
        forall|k: int| at <= k < run_end(s, at, class) ==> member(class, #[trigger] s[k]),
        run_end(s, at, class) < s.len() ==> !member(class, s[run_end(s, at, class)]),
    decreases s.len() - at,
{
    if at < s.len() && member(class, s[at]) {
        lemma_run(s, at + 1, class);
    }
}

/// Whether a byte is of a class.
pub fn belongs(class: Class, byte: u8) -> (r: bool)
    ensures
        r == member(class, byte),
{
    match class {
        Class::Blank => byte == 0x20 || byte == 0x09,
        Class::Space => byte == 0x20 || byte == 0x09 || byte == 0x0a || byte == 0x0d,
        Class::Digit => 0x30 <= byte && byte <= 0x39,
        Class::Inline => byte != 0x0a && byte != 0x0d,
    }
}

/// Where the longest run of bytes of a class that starts at `at` ends.
pub fn run(input: &[u8], at: usize, class: Class) -> (end: usize)
    requires
        at <= input@.len(),
    ensures
        end == run_end(input@, at as int, class),
        at <= end <= input@.len(),
{
    let mut i: usize = at;
    while i < input.len() && belongs(class, input[i])
        invariant
            at <= i <= input@.len(),
            run_end(input@, at as int, class) == run_end(input@, i as int, class),
        decreases input@.len() - i,
    {
        i = i + 1;
    }
    i
}

/// Whether the byte at `at` is `byte`.
fn is_at(input: &[u8], at: usize, byte: u8) -> (r: bool)
    ensures
        r == has(input@, at as int, byte),
{
    at < input.len() && input[at] == byte
}

/// Whether the byte at `at` is the lower-case letter `lower` or its capital.
fn letter_at(input: &[u8], at: usize, lower: u8) -> (r: bool)
    requires
        lower >= 0x20,
    ensures
        r == has_letter(input@, at as int, lower),
{
    at < input.len() && (input[at] == lower || input[at] == lower - 0x20)
}

/// Where an optional sign that starts at `at` ends.
fn sign(input: &[u8], at: usize) -> (end: usize)
    requires
        at <= input@.len(),
    ensures
        end == sign_end(input@, at as int),
        at <= end <= input@.len(),
{
    let len: usize = input.len();
    if at < len && (is_at(input, at, 0x2b) || is_at(input, at, 0x2d)) {
        at + 1
    } else {
        at
    }
}

/// Where the numeral that starts at `at` ends, if one starts there.
pub fn numeral(input: &[u8], at: usize) -> (r: Option<usize>)
    requires
        at <= input@.len(),
    ensures
        match r {
            Some(end) => numeral_end(input@, at as int) == Some(end as int) && at < end
                <= input@.len(),
            None => numeral_end(input@, at as int) is None,
        },
{
    let len: usize = input.len();
    let signed: usize = sign(input, at);
    let whole: usize = run(input, signed, Class::Digit);
    let digits: Option<usize> = if whole > signed {
        if is_at(input, whole, 0x2e) {
            Some(run(input, whole + 1, Class::Digit))
        } else {
            Some(whole)
        }
    } else if is_at(input, signed, 0x2e) {
        let fraction: usize = run(input, signed + 1, Class::Digit);
        if fraction > signed + 1 {
            Some(fraction)
        } else {
            None
        }
    } else {
        None
    };
    match digits {
        Some(end) => {
            if letter_at(input, end, 0x65) {
                let from: usize = sign(input, end + 1);
                let to: usize = run(input, from, Class::Digit);
                if to > from {
                    Some(to)
                } else {
                    None
                }
            } else {
                Some(end)
            }
        },
        None => {
            if input.len() - at >= 3 && ((letter_at(input, at, 0x6e) && letter_at(
                input,
                at + 1,
                0x61,
            ) && letter_at(input, at + 2, 0x6e)) || (letter_at(input, at, 0x69) && letter_at(
                input,
                at + 1,
                0x6e,
            ) && letter_at(input, at + 2, 0x66))) {
                Some(at + 3)
            } else {
                None
            }
        },
    }
}

/// Where the comment that starts at `at` ends, if one starts there.
fn comment(input: &[u8], at: usize) -> (r: Option<usize>)
    requires
        at <= input@.len(),
    ensures
        match r {
            Some(end) => comment_end(input@, at as int) == Some(end as int) && at < end
                <= input@.len(),
            None => comment_end(input@, at as int) is None,
        },
{
    let len: usize = input.len();
    if at < len && is_at(input, at, 0x23) {
        let end: usize = run(input, at + 1, Class::Inline);
        if end > at + 1 {
            Some(end)
        } else {
            None
        }
    } else {
        None
    }
}

/// Where what may follow an item ends.
fn trail(input: &[u8], at: usize) -> (end: usize)
    requires
        at <= input@.len(),
    ensures
        end == trail_end(input@, at as int),
        at <= end <= input@.len(),
{
    let spaced: usize = run(input, at, Class::Space);
    match comment(input, spaced) {
        Some(commented) => run(input, commented, Class::Space),
        None => run(input, spaced, Class::Space),
    }
}

/// Whether the parser's answer is the grammar's.
pub open spec fn agrees(r: Option<(usize, Span)>, g: Option<(int, (int, int))>) -> bool {
    match r {
        Some((rest, span)) => g == Some((rest as int, (span.start as int, span.end as int))),
        None => g is None,
    }
}

/// A number that starts at `at`, space before it allowed.
fn number_from(input: &[u8], at: usize) -> (r: Option<(usize, Span)>)
    requires
        at <= input@.len(),
    ensures
        agrees(r, number_at(input@, at as int)),
        r is Some ==> at <= r.unwrap().1.start < r.unwrap().1.end <= r.unwrap().0 <= input@.len(),
{
    let start: usize = run(input, at, Class::Space);
    match numeral(input, start) {
        Some(end) => Some((trail(input, end), Span { start, end })),
        None => None,
    }
}

/// Three numbers in a row, from `at`.
fn triple_from(input: &[u8], at: usize) -> (r: Option<(usize, [Span; 3])>)
    requires
        at <= input@.len(),
    ensures
        match r {
            Some((rest, spans)) => triple_at(input@, at as int) == Some(
                (rest as int, spans@.map_values(|p: Span| (p.start as int, p.end as int))),
            ) && at <= rest <= input@.len(),
            None => triple_at(input@, at as int) is None,
        },
{
    let (after_x, x) = match number_from(input, at) {
        Some(found) => found,
        None => {
            return None;
        },
    };
    let (after_y, y) = match number_from(input, after_x) {
        Some(found) => found,
        None => {
            return None;
        },
    };
    let (after_z, z) = match number_from(input, after_y) {
        Some(found) => found,
        None => {
            return None;
        },
    };
    let spans = [x, y, z];
    assert(spans@.map_values(|p: Span| (p.start as int, p.end as int)) =~= seq![
        (x.start as int, x.end as int),
        (y.start as int, y.end as int),
        (z.start as int, z.end as int),
    ]);
    Some((after_z, spans))
}

/// Where the numerals of a vector lie.
#[derive(Clone, Copy, Debug, PartialEq, Eq, Structural)]
pub struct VectorText {
    pub x: Span,
    pub y: Span,
    pub z: Span,
}

/// Where the numerals of a point lie.
#[derive(Clone, Copy, Debug, PartialEq, Eq, Structural)]
pub struct PointText {
    pub x: Span,
    pub y: Span,
    pub z: Span,
}

/// Where the numerals of a camera placement lie.
#[derive(Clone, Copy, Debug, PartialEq, Eq, Structural)]
pub struct LookAtText {
    pub eye: PointText,
    pub target: PointText,
    pub up: VectorText,
}

/// The three spans as the grammar gives them.
pub open spec fn places(x: Span, y: Span, z: Span) -> Seq<(int, int)> {
    seq![(x.start as int, x.end as int), (y.start as int, y.end as int), (z.start as int, z.end as int)]
}

/// A comment at the start of the text: where the rest of the text begins.
/// The comment is a `#` and all that follows on its line, which is at least
/// one byte; the rest begins at the end of the line or of the text.
pub fn peol_comment(input: &[u8]) -> (r: Option<usize>)
    ensures
        match r {
            Some(rest) => {
                &&& comment_end(input@, 0) == Some(rest as int)
                &&& 2 <= rest <= input@.len()
                &&& input@[0] == 0x23
                &&& forall|k: int| 1 <= k < rest ==> member(Class::Inline, #[trigger] input@[k])
                &&& rest < input@.len() ==> !member(Class::Inline, input@[rest as int])
            },
            None => comment_end(input@, 0) is None,
        },
{
    proof {
        if input@.len() >= 1 {
            lemma_run(input@, 1, Class::Inline);
        }
    }
    comment(input, 0)
}

/// A number at the start of the text: where the rest of the text begins and
/// where the numeral lies.
pub fn number(input: &[u8]) -> (r: Option<(usize, Span)>)
    ensures
        agrees(r, number_at(input@, 0)),
        r is Some ==> r.unwrap().1.start < r.unwrap().1.end <= r.unwrap().0 <= input@.len(),
{
    number_from(input, 0)
}

/// A vector at the start of the text: three numbers.
pub fn vec3(input: &[u8]) -> (r: Option<(usize, VectorText)>)
    ensures
        match r {
            Some((rest, v)) => triple_at(input@, 0) == Some((rest as int, places(v.x, v.y, v.z)))
                && rest <= input@.len(),
            None => triple_at(input@, 0) is None,
        },
{
    match triple_from(input, 0) {
        Some((rest, spans)) => Some((rest, VectorText { x: spans[0], y: spans[1], z: spans[2] })),
        None => None,
    }
}

/// A point at the start of the text: three numbers.
pub fn point3(input: &[u8]) -> (r: Option<(usize, PointText)>)
    ensures
        match r {
            Some((rest, p)) => triple_at(input@, 0) == Some((rest as int, places(p.x, p.y, p.z)))
                && rest <= input@.len(),
            None => triple_at(input@, 0) is None,
        },
{
    match triple_from(input, 0) {
        Some((rest, spans)) => Some((rest, PointText { x: spans[0], y: spans[1], z: spans[2] })),
        None => None,
    }
}

/// A camera placement at the start of the text.
pub fn look_at(input: &[u8]) -> (r: Option<(usize, LookAtText)>)
    ensures
        match r {
            Some((rest, placed)) => look_at_spec(input@) == Some(
                (
                    rest as int,
                    seq![
                        places(placed.eye.x, placed.eye.y, placed.eye.z),
                        places(placed.target.x, placed.target.y, placed.target.z),
                        places(placed.up.x, placed.up.y, placed.up.z),
                    ],
                ),
            ) && rest <= input@.len(),
            None => look_at_spec(input@) is None,
        },
{
    if input.len() < 6 {
        return None;
    }
    if !(input[0] == 0x4c && input[1] == 0x6f && input[2] == 0x6f && input[3] == 0x6b && input[4]
        == 0x41 && input[5] == 0x74) {
        assert(input@.subrange(0, 6)[0] == input@[0]);
        assert(input@.subrange(0, 6)[1] == input@[1]);
        assert(input@.subrange(0, 6)[2] == input@[2]);
        assert(input@.subrange(0, 6)[3] == input@[3]);
        assert(input@.subrange(0, 6)[4] == input@[4]);
        assert(input@.subrange(0, 6)[5] == input@[5]);
        return None;
    }
    assert(input@.subrange(0, 6) =~= keyword());
    let from: usize = run(input, 6, Class::Blank);
    if from == 6 {
        return None;
    }
    let (after_eye, eye) = match triple_from(input, from) {
        Some(found) => found,
        None => {
            return None;
        },
    };
    let (after_target, target) = match triple_from(input, after_eye) {
        Some(found) => found,
        None => {
            return None;
        },
    };
    let (rest, up) = match triple_from(input, after_target) {
        Some(found) => found,
        None => {
            return None;
        },
    };
    let placed = LookAtText {
        eye: PointText { x: eye[0], y: eye[1], z: eye[2] },
        target: PointText { x: target[0], y: target[1], z: target[2] },
        up: VectorText { x: up[0], y: up[1], z: up[2] },
    };
    Some((rest, placed))
}

} // verus!
