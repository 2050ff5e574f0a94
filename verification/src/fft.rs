use vstd::prelude::*;

verus! {

use crate::complex::{Complex, bounded, cadd, cmul, lemma_cmul_bounded};

/// One of the three buffers a transform pass can read or write.
///
/// `Source` is the caller-supplied frequency field, read by the very
/// first pass only.  `Target` is the caller-supplied output framebuffer;
/// `Ping` is the engine-owned spare.  `Target` and `Ping` alternate as
/// destination from pass to pass, and the odd total number of writes
/// lands the final pass on `Target`.
#[derive(Debug, PartialEq, Eq, Structural, Clone, Copy)]
pub enum BufferSlot {
    /// The caller's input frequency field.
    Source,
    /// The engine-owned spare framebuffer.
    Ping,
    /// The caller's output framebuffer.
    Target,
}

/// The work done by one GPU pass of the transform.
#[derive(Debug, PartialEq, Eq, Structural, Clone, Copy)]
pub enum PassKind {
    /// One butterfly stage; `direction` selects the grid axis (0 for the
    /// row pass, 1 for the column pass) and `stage` the butterfly span.
    Butterfly { direction: u32, stage: u32 },
    /// The final pass: scales every texel by `1 / (n * n)` and
    /// reassembles the real-valued output channels.
    Inversion,
}

/// One pass of the transform: what it computes, where it reads, where it
/// writes.
#[derive(Debug, PartialEq, Eq, Structural, Clone, Copy)]
pub struct FftPass {
    /// The computation bound for this pass.
    pub kind: PassKind,
    /// The buffer the pass samples.
    pub input: BufferSlot,
    /// The buffer the pass renders into.
    pub output: BufferSlot,
}

/// Where pass `i` reads: the caller's field first, then always the buffer
/// the previous pass wrote.
pub open spec fn spec_pass_input(i: nat) -> BufferSlot {
    if i == 0 {
        BufferSlot::Source
    } else if i % 2 == 1 {
        BufferSlot::Target
    } else {
        BufferSlot::Ping
    }
}

/// Where pass `i` writes: the two framebuffers swap roles after every
/// pass, starting with the caller's output buffer.
pub open spec fn spec_pass_output(i: nat) -> BufferSlot {
    if i % 2 == 0 {
        BufferSlot::Target
    } else {
        BufferSlot::Ping
    }
}

/// The kind of pass `i` of a transform with `stages` butterfly stages per
/// axis: first all stages of the row axis, then all stages of the column
/// axis, then the single inversion pass.
pub open spec fn spec_pass_kind(stages: nat, i: nat) -> PassKind {
    if i < 2 * stages {
        PassKind::Butterfly { direction: (i / stages) as u32, stage: (i % stages) as u32 }
    } else {
        PassKind::Inversion
    }
}

/// Builds the complete pass schedule of one two-dimensional transform:
/// `2 * stages` butterfly passes (the same one-dimensional machinery run
/// once per axis) followed by exactly one inversion pass.
///
/// The ensures pin down the whole ping-pong discipline:
/// every pass reads exactly the buffer the previous pass wrote, no pass
/// reads its own destination, the caller's input field is read by the
/// first pass alone, and the last pass writes the caller's output buffer.
pub fn transform_schedule(stages: u32) -> (r: Vec<FftPass>)
    requires
        1 <= stages <= 31,
    ensures
        r@.len() == 2 * stages + 1,
        forall|i: int|
            0 <= i < r@.len() ==> #[trigger] r@[i] == (FftPass {
                kind: spec_pass_kind(stages as nat, i as nat),
                input: spec_pass_input(i as nat),
                output: spec_pass_output(i as nat),
            }),
        forall|i: int| 0 < i < r@.len() ==> (#[trigger] r@[i]).input == r@[i - 1].output,
        forall|i: int| 0 <= i < r@.len() ==> (#[trigger] r@[i]).input != r@[i].output,
        forall|i: int| 0 < i < r@.len() ==> (#[trigger] r@[i]).input != BufferSlot::Source,
        r@[0].input == BufferSlot::Source,
        r@[r@.len() - 1] == (FftPass {
            kind: PassKind::Inversion,
            input: BufferSlot::Ping,
            output: BufferSlot::Target,
        }),
{
    let total = 2 * stages + 1;
    let mut r: Vec<FftPass> = Vec::new();
    let mut i: u32 = 0;
    while i < total
        invariant
            1 <= stages <= 31,
            total == 2 * stages + 1,
            i <= total,
            r@.len() == i as int,
            forall|j: int|
                0 <= j < i as int ==> #[trigger] r@[j] == (FftPass {
                    kind: spec_pass_kind(stages as nat, j as nat),
                    input: spec_pass_input(j as nat),
                    output: spec_pass_output(j as nat),
                }),
        decreases total - i,
    {
        let kind = if i < 2 * stages {
            PassKind::Butterfly { direction: i / stages, stage: i % stages }
        } else {
            PassKind::Inversion
        };
        let input = if i == 0 {
            BufferSlot::Source
        } else if i % 2 == 1 {
            BufferSlot::Target
        } else {
            BufferSlot::Ping
        };
        let output = if i % 2 == 0 {
            BufferSlot::Target
        } else {
            BufferSlot::Ping
        };
        r.push(FftPass { kind, input, output });
        i = i + 1;
    }
    proof {
        assert(r@[r@.len() - 1].kind == spec_pass_kind(stages as nat, (2 * stages) as nat));
        assert((2 * stages) as nat % 2 == 0) by (nonlinear_arith);
    }
    r
}

/// One butterfly combination, exactly as a butterfly pass computes each
/// output texel: the first source plus the twiddle rotation applied to
/// the second source, `a + w * b`.
pub fn butterfly_combine(a: Complex, b: Complex, w: Complex) -> (r: Complex)
    requires
        -0x2000_0000_0000_0000 <= a.re <= 0x2000_0000_0000_0000,
        -0x2000_0000_0000_0000 <= a.im <= 0x2000_0000_0000_0000,
        bounded(b),
        bounded(w),
    ensures
        r@ == cadd(a@, cmul(w@, b@)),
{
    proof {
        lemma_cmul_bounded(w@, b@);
    }
    let rotated = w.mul(b);
    Complex { re: a.re + rotated.re, im: a.im + rotated.im }
}

} // verus!
