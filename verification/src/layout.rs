use vstd::prelude::*;
use vstd::string::*;

verus! {

/// Widest capture stored as it is; wider captures are scaled down.
pub const MAX_CAPTURE_WIDTH: u32 = 7680;

/// Tallest capture stored as it is; taller captures are scaled down.
pub const MAX_CAPTURE_HEIGHT: u32 = 4320;

/// Sum of the widths of the monitor images.
pub open spec fn total_width(sizes: Seq<(u32, u32)>) -> nat
    decreases sizes.len(),
{
    if sizes.len() == 0 {
        0
    } else {
        total_width(sizes.drop_last()) + sizes.last().0 as nat
    }
}

/// Largest height among the monitor images (zero for none).
pub open spec fn max_height(sizes: Seq<(u32, u32)>) -> nat
    decreases sizes.len(),
{
    if sizes.len() == 0 {
        0
    } else if max_height(sizes.drop_last()) < sizes.last().1 {
        sizes.last().1 as nat
    } else {
        max_height(sizes.drop_last())
    }
}

/// Why a capture could not be taken.
#[derive(Debug, Clone, Copy, PartialEq, Eq)]
pub enum CaptureError {
    /// The system reported no monitor to capture.
    NoMonitors,
}

/// Where the monitor images go on the combined canvas: side by side from the
/// left, in monitor order, top-aligned.
pub struct CanvasLayout {
    pub width: u32,
    pub height: u32,
    /// Left edge of each monitor image.
    pub offsets: Vec<u32>,
}

pub(crate) proof fn lemma_width_prefix(sizes: Seq<(u32, u32)>, i: int, j: int)
    requires
        0 <= i <= j <= sizes.len(),
    ensures
        total_width(sizes.take(i)) <= total_width(sizes.take(j)),
        i < j ==> total_width(sizes.take(i)) + sizes[i].0 <= total_width(sizes.take(j)),
    decreases j - i,
{
    if i < j {
        assert(sizes.take(j).drop_last() =~= sizes.take(j - 1));
        assert(sizes.take(j).last() == sizes[j - 1]);
        lemma_width_prefix(sizes, i, j - 1);
    }
}

proof fn lemma_height_bound(sizes: Seq<(u32, u32)>, i: int)
    requires
        0 <= i < sizes.len(),
    ensures
        sizes[i].1 <= max_height(sizes),
    decreases sizes.len(),
{
    if i < sizes.len() - 1 {
        lemma_height_bound(sizes.drop_last(), i);
    }
}

/// Lays the monitor images out on one canvas: as wide as all of them
/// together, as tall as the tallest, each image starting where the previous
/// one ends. Every image lies inside the canvas.
pub fn plan_canvas(sizes: &Vec<(u32, u32)>) -> (plan: Result<CanvasLayout, CaptureError>)
    requires
        total_width(sizes@) <= u32::MAX,
    ensures
        plan is Err <==> sizes@.len() == 0,
        plan matches Ok(layout) ==> {
            &&& layout.width == total_width(sizes@)
            &&& layout.height == max_height(sizes@)
            &&& layout.offsets@.len() == sizes@.len()
            &&& forall|i: int|
                0 <= i < sizes@.len() ==> #[trigger] layout.offsets@[i] == total_width(
                    sizes@.take(i),
                )
            &&& forall|i: int|
                0 <= i < sizes@.len() ==> layout.offsets@[i] + sizes@[i].0 <= layout.width
                    && sizes@[i].1 <= layout.height
        },
{
    let n = sizes.len();
    if n == 0 {
        return Err(CaptureError::NoMonitors);
    }
    let mut offsets: Vec<u32> = Vec::new();
    let mut width: u32 = 0;
    let mut height: u32 = 0;
    assert(sizes@.take(0) =~= Seq::<(u32, u32)>::empty());
    for i in 0..n
        invariant
            n == sizes@.len(),
            total_width(sizes@) <= u32::MAX,
            width == total_width(sizes@.take(i as int)),
            height == max_height(sizes@.take(i as int)),
            offsets@.len() == i,
            forall|k: int| 0 <= k < i ==> #[trigger] offsets@[k] == total_width(sizes@.take(k)),
    {
        let (w, h) = sizes[i];
        assert(sizes@.take(i + 1).drop_last() =~= sizes@.take(i as int));
        assert(sizes@.take(i + 1).last() == sizes@[i as int]);
        proof {
            lemma_width_prefix(sizes@, i + 1, n as int);
            assert(sizes@.take(n as int) =~= sizes@);
        }
        offsets.push(width);
        width = width + w;
        if height < h {
            height = h;
        }
    }
    assert(sizes@.take(n as int) =~= sizes@);
    proof {
        assert forall|i: int|
            0 <= i < sizes@.len() implies offsets@[i] + sizes@[i].0 <= width && sizes@[i].1
            <= height by {
            lemma_width_prefix(sizes@, i, n as int);
            lemma_height_bound(sizes@, i);
        }
    }
    Ok(CanvasLayout { width, height, offsets })
}

/// Whether a capture of this size must be scaled down before it is stored.
pub fn exceeds_capture_limit(width: u32, height: u32) -> (too_large: bool)
    ensures
        too_large == (width > MAX_CAPTURE_WIDTH || height > MAX_CAPTURE_HEIGHT),
{
    width > MAX_CAPTURE_WIDTH || height > MAX_CAPTURE_HEIGHT
}

/// Decimal digits of `n`, most significant first, without leading zeros.
pub open spec fn decimal_digits(n: nat) -> Seq<char>
    decreases n,
{
    if n < 10 {
        seq![(48 + n) as char]
    } else {
        decimal_digits(n / 10).push((48 + n % 10) as char)
    }
}

/// The number that a string of decimal digits spells.
pub open spec fn digits_value(digits: Seq<char>) -> int
    decreases digits.len(),
{
    if digits.len() == 0 {
        0
    } else {
        10 * digits_value(digits.drop_last()) + (digits.last() as int - 48)
    }
}

/// Decimal law: the digits of `n` are decimal digits, start with a non-zero
/// digit unless `n` is zero, and read back as `n`.
pub proof fn lemma_decimal_digits_read_back(n: nat)
    ensures
        decimal_digits(n).len() > 0,
        forall|i: int|
            0 <= i < decimal_digits(n).len() ==> '0' <= #[trigger] decimal_digits(n)[i] <= '9',
        n > 0 ==> decimal_digits(n)[0] != '0',
        digits_value(decimal_digits(n)) == n,
    decreases n,
{
    let c = (48 + n % 10) as char;
    assert(c as int == 48 + n % 10);
    if n < 10 {
        assert(decimal_digits(n) == seq![c]);
        assert(seq![c].drop_last() =~= Seq::<char>::empty());
        assert(digits_value(seq![c]) == 10 * digits_value(Seq::<char>::empty()) + (c as int - 48));
    } else {
        lemma_decimal_digits_read_back(n / 10);
        assert(decimal_digits(n) == decimal_digits(n / 10).push(c));
        assert(decimal_digits(n).last() == c);
        let d = decimal_digits(n);
        let front = decimal_digits(n / 10);
        assert(d.drop_last() =~= front);
        assert forall|i: int| 0 <= i < d.len() implies '0' <= #[trigger] d[i] <= '9' by {
            if i < front.len() {
                assert(d[i] == front[i]);
            }
        }
        assert(d[0] == front[0]);
    }
}

fn digit_text(d: u64) -> (text: &'static str)
    requires
        d < 10,
    ensures
        text@ == seq![(48 + d) as char],
{
    let digits = "0123456789";
    proof {
        reveal_strlit("0123456789");
    }
    digits.substring_char(d as usize, d as usize + 1)
}

fn append_decimal(out: &mut String, n: u64)
    ensures
        final(out)@ == old(out)@ + decimal_digits(n as nat),
    decreases n,
{
    if n >= 10 {
        append_decimal(out, n / 10);
    }
    out.append(digit_text(n % 10));
}

/// File name of the image of a frame captured at `timestamp` (seconds since
/// the Unix epoch): the decimal timestamp with the `.webp` extension.
pub fn frame_file_name(timestamp: u64) -> (name: String)
    ensures
        name@ == decimal_digits(timestamp as nat) + ".webp"@,
{
    let mut name = String::new();
    append_decimal(&mut name, timestamp);
    name.append(".webp");
    name
}

} // verus!
