//! The value network: a quantized network with one hidden layer, kept as a
//! pair of accumulators (one per point of view) and read out through a
//! squared clipped activation. All arithmetic is on integers.

use crate::position::{
    code_color, code_role, lemma_occupied_monotone, mirrored, occupied_below, recolored,
    valid_squares, Color, Position, Role, MAX_PIECES,
};
use vstd::prelude::*;

verus! {

/// The size of the input layer of the network.
pub const INPUT: usize = 768;

/// The size of one half of the hidden layer of the network.
pub const LAYER_1_SIZE: usize = 768;

/// Number of feature weights: one row of `LAYER_1_SIZE` for each input.
pub const FEATURE_WEIGHTS: usize = 589824;

/// Number of output weights: one for each hidden unit of either half.
pub const OUTPUT_WEIGHTS: usize = 1536;

/// The minimum value for the clipped activation.
pub const CR_MIN: i16 = 0;

/// The maximum value for the clipped activation.
pub const CR_MAX: i16 = 255;

/// The amount to scale the output of the network by.
pub const SCALE: i32 = 400;

/// Quantization of the feature weights.
pub const QA: i32 = 255;

/// Quantization of the output weights.
pub const QB: i32 = 64;

pub const QAB: i32 = 16320;

/// The largest magnitude of the sum before scaling for which the scaled
/// value still is a 32-bit number.
pub const OUTPUT_LIMIT: i32 = 5368709;

/// A value meant to start a cache line.
#[derive(Debug, Copy, Clone)]
pub struct Align<T>(pub T);

/// Activations of the hidden layer.
#[derive(Debug, Clone, Copy)]
pub struct Accumulator {
    pub white: Align<[i16; LAYER_1_SIZE]>,
    pub black: Align<[i16; LAYER_1_SIZE]>,
}

/// Whether a feature is switched on or off.
pub trait Activation {
    const ACTIVATE: bool;
}

pub struct Activate;

impl Activation for Activate {
    const ACTIVATE: bool = true;
}

pub struct Deactivate;

impl Activation for Deactivate {
    const ACTIVATE: bool = false;
}

/// Division that rounds towards zero, as the machine divides.
pub open spec fn div_trunc(a: int, b: int) -> int
    recommends
        b > 0,
{
    if a >= 0 {
        a / b
    } else {
        -((-a) / b)
    }
}

pub open spec fn abs(x: int) -> int {
    if x < 0 {
        -x
    } else {
        x
    }
}

/// The activation: the input clipped to `CR_MIN..=CR_MAX`, squared.
pub open spec fn screlu_value(x: int) -> int {
    let clipped = if x < CR_MIN {
        CR_MIN as int
    } else if x > CR_MAX {
        CR_MAX as int
    } else {
        x
    };
    clipped * clipped
}

/// Sum over the first `n` hidden units of the activation times the output
/// weight at `offset` plus the unit.
pub open spec fn layer_sum(acts: Seq<i16>, weights: Seq<i16>, offset: int, n: int) -> int
    decreases n,
{
    if n <= 0 {
        0
    } else {
        layer_sum(acts, weights, offset, n - 1) + screlu_value(acts[n - 1] as int) * (weights[offset
            + n - 1] as int)
    }
}

/// Sum of the magnitudes of the first `n` values.
pub open spec fn abs_sum(values: Seq<i16>, n: int) -> int
    decreases n,
{
    if n <= 0 {
        0
    } else {
        abs_sum(values, n - 1) + abs(values[n - 1] as int)
    }
}

/// Largest magnitude among the first `n` values, 0 for none.
pub open spec fn max_abs(values: Seq<i16>, n: int) -> int
    decreases n,
{
    if n <= 0 {
        0
    } else {
        let rest = max_abs(values, n - 1);
        let last = abs(values[n - 1] as int);
        if last > rest {
            last
        } else {
            rest
        }
    }
}

/// The output layer before the bias: both halves summed, then brought back
/// from the quantization of the activations.
pub open spec fn flattened(us: Seq<i16>, them: Seq<i16>, weights: Seq<i16>) -> int {
    div_trunc(
        layer_sum(us, weights, 0, LAYER_1_SIZE as int) + layer_sum(
            them,
            weights,
            LAYER_1_SIZE as int,
            LAYER_1_SIZE as int,
        ),
        QA as int,
    )
}

/// The score of the network for the output `flat` of its last layer.
pub open spec fn scaled_output(flat: int, bias: int) -> int {
    div_trunc((flat + bias) * SCALE, QAB as int)
}

/// Index of the feature "piece of `color` and `role` on `sq`" as white sees it.
pub open spec fn white_feature(color: Color, role: Role, sq: int) -> int {
    color.index() * 384 + role.index() * 64 + sq
}

/// Index of the same feature as black sees it: colours traded, board turned.
pub open spec fn black_feature(color: Color, role: Role, sq: int) -> int {
    (1 - color.index()) * 384 + role.index() * 64 + mirrored(sq)
}

/// Index of the feature of the piece with code `code` on `sq`, seen by `view`.
pub open spec fn square_feature(code: int, sq: int, view: Color) -> int {
    if view == Color::White {
        white_feature(code_color(code), code_role(code), sq)
    } else {
        black_feature(code_color(code), code_role(code), sq)
    }
}

/// What the pieces on the first `n` squares add to hidden unit `unit` of the
/// accumulator of `view`.
pub open spec fn feature_total(
    weights: Seq<i16>,
    squares: Seq<u8>,
    view: Color,
    unit: int,
    n: int,
) -> int
    decreases n,
{
    if n <= 0 {
        0
    } else {
        feature_total(weights, squares, view, unit, n - 1) + if squares[n - 1] == 0 {
            0int
        } else {
            weights[square_feature(squares[n - 1] as int, n - 1, view) * LAYER_1_SIZE + unit] as int
        }
    }
}

/// The parameters of the network.
///
/// `feature_weights` holds one row of `LAYER_1_SIZE` weights for each input
/// feature, `output_weights` the weights for the half of the side to move
/// followed by those for the other half.
pub struct NNUEParams {
    feature_weights: Vec<i16>,
    feature_bias: Align<[i16; LAYER_1_SIZE]>,
    output_weights: Align<[i16; OUTPUT_WEIGHTS]>,
    output_bias: i16,
}

/// What parameters must meet to be taken: the right sizes, and magnitudes
/// with which no position can bring the 16-bit accumulators or the 32-bit
/// output out of range.
pub open spec fn acceptable(
    feature_weights: Seq<i16>,
    feature_bias: Seq<i16>,
    output_weights: Seq<i16>,
    output_bias: i16,
) -> bool {
    &&& feature_weights.len() == FEATURE_WEIGHTS
    &&& feature_bias.len() == LAYER_1_SIZE
    &&& output_weights.len() == OUTPUT_WEIGHTS
    &&& max_abs(feature_bias, LAYER_1_SIZE as int) + MAX_PIECES * max_abs(
        feature_weights,
        FEATURE_WEIGHTS as int,
    ) <= i16::MAX
    &&& QA * abs_sum(output_weights, OUTPUT_WEIGHTS as int) + abs(output_bias as int)
        <= OUTPUT_LIMIT
}

impl NNUEParams {
    pub closed spec fn feature_weights(&self) -> Seq<i16> {
        self.feature_weights@
    }

    pub closed spec fn feature_bias(&self) -> Seq<i16> {
        self.feature_bias.0@
    }

    pub closed spec fn output_weights(&self) -> Seq<i16> {
        self.output_weights.0@
    }

    pub closed spec fn output_bias(&self) -> i16 {
        self.output_bias
    }

    /// Holds of all parameters that exist.
    pub open spec fn wf(&self) -> bool {
        acceptable(
            self.feature_weights(),
            self.feature_bias(),
            self.output_weights(),
            self.output_bias(),
        )
    }

    #[verifier::type_invariant]
    spec fn inv(&self) -> bool {
        self.wf()
    }

    /// Hidden unit `unit` of the accumulator of `view` once every piece of
    /// `squares` is switched on.
    pub open spec fn accumulated(&self, squares: Seq<u8>, view: Color, unit: int) -> int {
        self.feature_bias()[unit] + feature_total(
            self.feature_weights(),
            squares,
            view,
            unit,
            64,
        )
    }

    /// The accumulator of `view` for the board `squares`.
    pub open spec fn accumulator(&self, squares: Seq<u8>, view: Color) -> Seq<i16> {
        Seq::new(LAYER_1_SIZE as nat, |unit: int| self.accumulated(squares, view, unit) as i16)
    }

    /// The score of the board `squares` for the side `side`, which is to move.
    pub open spec fn score(&self, squares: Seq<u8>, side: Color) -> int {
        scaled_output(
            flattened(
                self.accumulator(squares, side),
                self.accumulator(squares, side.opposite()),
                self.output_weights(),
            ),
            self.output_bias() as int,
        )
    }

    /// Parameters with the given values, if they are acceptable.
    pub fn new(
        feature_weights: Vec<i16>,
        feature_bias: [i16; LAYER_1_SIZE],
        output_weights: [i16; OUTPUT_WEIGHTS],
        output_bias: i16,
    ) -> (r: Option<NNUEParams>)
        ensures
            r.is_some() <==> acceptable(
                feature_weights@,
                feature_bias@,
                output_weights@,
                output_bias,
            ),
            r matches Some(p) ==> {
                &&& p.wf()
                &&& p.feature_weights() == feature_weights@
                &&& p.feature_bias() == feature_bias@
                &&& p.output_weights() == output_weights@
                &&& p.output_bias() == output_bias
            },
    {
        if feature_weights.len() != FEATURE_WEIGHTS {
            return None;
        }
        let weight_bound = largest_magnitude(feature_weights.as_slice());
        let bias_bound = largest_magnitude(feature_bias.as_slice());
        if bias_bound + 32 * weight_bound > 32767 {
            return None;
        }
        let mut total: i64 = 0;
        let mut i: usize = 0;
        while i < OUTPUT_WEIGHTS
            invariant
                i <= OUTPUT_WEIGHTS,
                total == abs_sum(output_weights@, i as int),
                0 <= total <= 32768 * i,
            decreases OUTPUT_WEIGHTS - i,
        {
            total = total + magnitude(output_weights[i]) as i64;
            i = i + 1;
        }
        if 255 * total + magnitude(output_bias) as i64 > OUTPUT_LIMIT as i64 {
            return None;
        }
        Some(
            NNUEParams {
                feature_weights,
                feature_bias: Align(feature_bias),
                output_weights: Align(output_weights),
                output_bias,
            },
        )
    }

    /// Parameters read from their four blocks of bytes: each a tightly
    /// packed run of 16-bit values, low byte first. `None` where a block
    /// has the wrong length or the values are not acceptable.
    pub fn from_bytes(
        feature_weights: &[u8],
        feature_bias: &[u8],
        output_weights: &[u8],
        output_bias: &[u8],
    ) -> (r: Option<NNUEParams>)
        ensures
            r.is_some() <==> {
                &&& feature_weights@.len() == 2 * FEATURE_WEIGHTS
                &&& feature_bias@.len() == 2 * LAYER_1_SIZE
                &&& output_weights@.len() == 2 * OUTPUT_WEIGHTS
                &&& output_bias@.len() == 2
                &&& acceptable(
                    decoded(feature_weights@),
                    decoded(feature_bias@),
                    decoded(output_weights@),
                    decoded(output_bias@)[0],
                )
            },
            r matches Some(p) ==> {
                &&& p.wf()
                &&& p.feature_weights() == decoded(feature_weights@)
                &&& p.feature_bias() == decoded(feature_bias@)
                &&& p.output_weights() == decoded(output_weights@)
                &&& p.output_bias() == decoded(output_bias@)[0]
            },
    {
        if feature_weights.len() != 2 * FEATURE_WEIGHTS || feature_bias.len() != 2 * LAYER_1_SIZE
            || output_weights.len() != 2 * OUTPUT_WEIGHTS || output_bias.len() != 2 {
            return None;
        }
        let weights = decode_words(feature_weights);
        let bias_words = decode_words(feature_bias);
        let output_words = decode_words(output_weights);
        let last = decode_words(output_bias);
        let mut bias: [i16; LAYER_1_SIZE] = [0i16;LAYER_1_SIZE];
        let mut i: usize = 0;
        while i < LAYER_1_SIZE
            invariant
                i <= LAYER_1_SIZE,
                bias_words@.len() == LAYER_1_SIZE,
                forall|k: int| 0 <= k < i ==> #[trigger] bias@[k] == bias_words@[k],
            decreases LAYER_1_SIZE - i,
        {
            bias[i] = bias_words[i];
            i = i + 1;
        }
        let mut output: [i16; OUTPUT_WEIGHTS] = [0i16;OUTPUT_WEIGHTS];
        let mut i: usize = 0;
        while i < OUTPUT_WEIGHTS
            invariant
                i <= OUTPUT_WEIGHTS,
                output_words@.len() == OUTPUT_WEIGHTS,
                forall|k: int| 0 <= k < i ==> #[trigger] output@[k] == output_words@[k],
            decreases OUTPUT_WEIGHTS - i,
        {
            output[i] = output_words[i];
            i = i + 1;
        }
        proof {
            assert(bias@ =~= decoded(feature_bias@));
            assert(output@ =~= decoded(output_weights@));
        }
        NNUEParams::new(weights, bias, output, last[0])
    }

    pub fn bias(&self) -> (r: &Align<[i16; LAYER_1_SIZE]>)
        ensures
            r.0@ == self.feature_bias(),
    {
        &self.feature_bias
    }
}

/// Every one of the first `n` values is within the largest magnitude.
pub proof fn lemma_max_abs_bounds(values: Seq<i16>, n: int, i: int)
    requires
        0 <= i < n,
    ensures
        abs(values[i] as int) <= max_abs(values, n),
    decreases n,
{
    if i < n - 1 {
        lemma_max_abs_bounds(values, n - 1, i);
    }
}

/// The sum of magnitudes grows with the number of values summed.
pub proof fn lemma_abs_sum_monotone(values: Seq<i16>, a: int, b: int)
    requires
        a <= b,
    ensures
        0 <= abs_sum(values, a) <= abs_sum(values, b),
    decreases b,
{
    if b > 0 {
        if a < b {
            lemma_abs_sum_monotone(values, a, b - 1);
        } else {
            lemma_abs_sum_monotone(values, a - 1, b - 1);
        }
    }
}

/// What the pieces add to a hidden unit is bounded by their number times
/// the largest feature weight.
pub proof fn lemma_feature_total_bound(
    weights: Seq<i16>,
    squares: Seq<u8>,
    view: Color,
    unit: int,
    n: int,
)
    requires
        weights.len() == FEATURE_WEIGHTS,
        squares.len() == 64,
        forall|i: int| 0 <= i < 64 ==> #[trigger] squares[i] <= 12,
        0 <= unit < LAYER_1_SIZE,
        0 <= n <= 64,
    ensures
        abs(feature_total(weights, squares, view, unit, n)) <= occupied_below(squares, n)
            * max_abs(weights, FEATURE_WEIGHTS as int),
    decreases n,
{
    if n > 0 {
        lemma_feature_total_bound(weights, squares, view, unit, n - 1);
        let bound = max_abs(weights, FEATURE_WEIGHTS as int);
        let before = occupied_below(squares, n - 1);
        if squares[n - 1] != 0 {
            let code = squares[n - 1] as int;
            let at = square_feature(code, n - 1, view) * LAYER_1_SIZE + unit;
            lemma_square_feature_range(code, n - 1, view);
            lemma_max_abs_bounds(weights, FEATURE_WEIGHTS as int, at);
            assert((before + 1) * bound == before * bound + bound) by (nonlinear_arith);
        }
    }
}

/// A feature index names a row of the feature weights.
pub proof fn lemma_square_feature_range(code: int, sq: int, view: Color)
    requires
        1 <= code <= 12,
        0 <= sq < 64,
    ensures
        0 <= square_feature(code, sq, view) < INPUT,
{
}

/// One half of the output layer is bounded by the weights that it reads.
pub proof fn lemma_layer_sum_bound(acts: Seq<i16>, weights: Seq<i16>, offset: int, n: int)
    requires
        0 <= offset,
        0 <= n,
    ensures
        abs(layer_sum(acts, weights, offset, n)) <= 65025 * (abs_sum(weights, offset + n)
            - abs_sum(weights, offset)),
    decreases n,
{
    if n > 0 {
        lemma_layer_sum_bound(acts, weights, offset, n - 1);
        let a = screlu_value(acts[n - 1] as int);
        let w = weights[offset + n - 1] as int;
        assert(0 <= a <= 65025) by (nonlinear_arith)
            requires
                a == screlu_value(acts[n - 1] as int),
        ;
        assert(abs(a * w) <= 65025 * abs(w)) by (nonlinear_arith)
            requires
                0 <= a <= 65025,
        ;
    }
}

/// The indices of the feature "piece of `colour` and `piece_type` on `sq`"
/// in the accumulators of white and of black.
pub fn feature_indices(sq: u8, piece_type: Role, colour: Color) -> (r: (usize, usize))
    requires
        sq < 64,
    ensures
        r.0 == white_feature(colour, piece_type, sq as int),
        r.1 == black_feature(colour, piece_type, sq as int),
        r.0 < INPUT,
        r.1 < INPUT,
{
    let colour_stride: usize = 384;
    let piece_stride: usize = 64;
    let piece_type = piece_type.to_index();
    let colour = colour.to_index();
    let flipped: u8 = sq ^ 56;
    assert(flipped == (7 - sq / 8) * 8 + sq % 8) by (bit_vector)
        requires
            flipped == sq ^ 56,
            sq < 64,
    ;
    let white_idx = colour * colour_stride + piece_type * piece_stride + sq as usize;
    let black_idx = (1 - colour) * colour_stride + piece_type * piece_stride + flipped as usize;
    (white_idx, black_idx)
}

/// Adds `SIZE` values of `delta`, from `offset_add` on, to `input`.
pub fn add_to_all<const SIZE: usize>(
    input: &mut Align<[i16; SIZE]>,
    delta: &[i16],
    offset_add: usize,
)
    requires
        offset_add + SIZE <= delta.len(),
        forall|i: int|
            0 <= i < SIZE ==> i16::MIN <= #[trigger] old(input).0@[i] + delta@[offset_add + i]
                <= i16::MAX,
    ensures
        forall|i: int|
            0 <= i < SIZE ==> #[trigger] final(input).0@[i] == old(input).0@[i] + delta@[offset_add
                + i],
{
    let mut i: usize = 0;
    while i < SIZE
        invariant
            i <= SIZE,
            offset_add + SIZE <= delta.len(),
            forall|k: int|
                0 <= k < SIZE ==> i16::MIN <= #[trigger] old(input).0@[k] + delta@[offset_add + k]
                    <= i16::MAX,
            forall|k: int|
                0 <= k < i ==> #[trigger] input.0@[k] == old(input).0@[k] + delta@[offset_add + k],
            forall|k: int| i <= k < SIZE ==> #[trigger] input.0@[k] == old(input).0@[k],
        decreases SIZE - i,
    {
        let d = delta[offset_add + i];
        assert(i16::MIN <= old(input).0@[i as int] + delta@[offset_add + i] <= i16::MAX);
        input.0[i] = input.0[i] + d;
        i = i + 1;
    }
}

/// Takes `SIZE` values of `delta`, from `offset_sub` on, off `input`.
pub fn sub_from_all<const SIZE: usize>(
    input: &mut Align<[i16; SIZE]>,
    delta: &[i16],
    offset_sub: usize,
)
    requires
        offset_sub + SIZE <= delta.len(),
        forall|i: int|
            0 <= i < SIZE ==> i16::MIN <= #[trigger] old(input).0@[i] - delta@[offset_sub + i]
                <= i16::MAX,
    ensures
        forall|i: int|
            0 <= i < SIZE ==> #[trigger] final(input).0@[i] == old(input).0@[i] - delta@[offset_sub
                + i],
{
    let mut i: usize = 0;
    while i < SIZE
        invariant
            i <= SIZE,
            offset_sub + SIZE <= delta.len(),
            forall|k: int|
                0 <= k < SIZE ==> i16::MIN <= #[trigger] old(input).0@[k] - delta@[offset_sub + k]
                    <= i16::MAX,
            forall|k: int|
                0 <= k < i ==> #[trigger] input.0@[k] == old(input).0@[k] - delta@[offset_sub + k],
            forall|k: int| i <= k < SIZE ==> #[trigger] input.0@[k] == old(input).0@[k],
        decreases SIZE - i,
    {
        let d = delta[offset_sub + i];
        assert(i16::MIN <= old(input).0@[i as int] - delta@[offset_sub + i] <= i16::MAX);
        input.0[i] = input.0[i] - d;
        i = i + 1;
    }
}

/// The squared clipped activation of `x`.
pub fn screlu(x: i16) -> (r: i32)
    ensures
        r == screlu_value(x as int),
        0 <= r <= 65025,
{
    let x: i16 = if x < CR_MIN {
        CR_MIN
    } else if x > CR_MAX {
        CR_MAX
    } else {
        x
    };
    let x: i32 = x as i32;
    assert(0 <= x * x <= 65025) by (nonlinear_arith)
        requires
            0 <= x <= 255,
    ;
    x * x
}

/// Executes the squared clipped activation on the partial activations, and
/// accumulates the result into a sum.
pub fn screlu_flatten(
    us: &Align<[i16; LAYER_1_SIZE]>,
    them: &Align<[i16; LAYER_1_SIZE]>,
    weights: &Align<[i16; OUTPUT_WEIGHTS]>,
) -> (r: i32)
    requires
        65025 * abs_sum(weights.0@, OUTPUT_WEIGHTS as int) <= i32::MAX,
    ensures
        r == flattened(us.0@, them.0@, weights.0@),
        abs(r as int) <= QA * abs_sum(weights.0@, OUTPUT_WEIGHTS as int),
{
    let ghost limit = abs_sum(weights.0@, OUTPUT_WEIGHTS as int);
    let mut sum: i32 = 0;
    let mut i: usize = 0;
    while i < LAYER_1_SIZE
        invariant
            i <= LAYER_1_SIZE,
            limit == abs_sum(weights.0@, OUTPUT_WEIGHTS as int),
            65025 * limit <= i32::MAX,
            sum == layer_sum(us.0@, weights.0@, 0, i as int),
            abs(sum as int) <= 65025 * abs_sum(weights.0@, i as int),
        decreases LAYER_1_SIZE - i,
    {
        let a = screlu(us.0[i]);
        let w = weights.0[i] as i32;
        proof {
            lemma_abs_sum_monotone(weights.0@, i as int + 1, OUTPUT_WEIGHTS as int);
            assert(abs(a * w) <= 65025 * abs(w as int)) by (nonlinear_arith)
                requires
                    0 <= a <= 65025,
            ;
        }
        sum = sum + a * w;
        i = i + 1;
    }
    let ghost first = sum as int;
    let mut i: usize = 0;
    while i < LAYER_1_SIZE
        invariant
            i <= LAYER_1_SIZE,
            limit == abs_sum(weights.0@, OUTPUT_WEIGHTS as int),
            65025 * limit <= i32::MAX,
            first == layer_sum(us.0@, weights.0@, 0, LAYER_1_SIZE as int),
            sum == first + layer_sum(them.0@, weights.0@, LAYER_1_SIZE as int, i as int),
            abs(sum as int) <= 65025 * abs_sum(weights.0@, LAYER_1_SIZE + i),
        decreases LAYER_1_SIZE - i,
    {
        let a = screlu(them.0[i]);
        let w = weights.0[LAYER_1_SIZE + i] as i32;
        proof {
            lemma_abs_sum_monotone(weights.0@, LAYER_1_SIZE + i + 1, OUTPUT_WEIGHTS as int);
            assert(abs(a * w) <= 65025 * abs(w as int)) by (nonlinear_arith)
                requires
                    0 <= a <= 65025,
            ;
        }
        sum = sum + a * w;
        i = i + 1;
    }
    sum / QA
}

impl Accumulator {
    /// Evaluates the final layer on the partial activations, for the side
    /// `stm`, which is to move.
    pub fn evaluate(&self, params: &NNUEParams, stm: Color) -> (r: i32)
        ensures
            r == scaled_output(
                flattened(
                    (if stm == Color::White {
                        self.white
                    } else {
                        self.black
                    }).0@,
                    (if stm == Color::White {
                        self.black
                    } else {
                        self.white
                    }).0@,
                    params.output_weights(),
                ),
                params.output_bias() as int,
            ),
    {
        proof {
            use_type_invariant(params);
        }
        let (us, them) = match stm {
            Color::White => (&self.white, &self.black),
            Color::Black => (&self.black, &self.white),
        };
        let output = screlu_flatten(us, them, &params.output_weights);
        (output + params.output_bias as i32) * SCALE / QAB
    }
}

/// State of the partial activations of the network.
#[derive(Debug, Clone)]
pub struct NNUEState {
    pub accumulator: Accumulator,
}

impl NNUEState {
    /// Both accumulators hold the feature bias and nothing else.
    pub open spec fn fresh(&self, params: &NNUEParams) -> bool {
        &&& self.accumulator.white.0@ == params.feature_bias()
        &&& self.accumulator.black.0@ == params.feature_bias()
    }

    /// Creates a new `NNUEState`.
    pub fn new(params: &NNUEParams) -> (r: NNUEState)
        ensures
            r.fresh(params),
    {
        NNUEState {
            accumulator: Accumulator { white: params.feature_bias, black: params.feature_bias },
        }
    }

    /// Calculates the evaluation of the position, for the side to move.
    /// Both accumulators are built anew from the feature bias, whatever
    /// they held.
    pub fn forward(&mut self, params: &NNUEParams, board: &Position) -> (r: i32)
        requires
            board.wf(),
        ensures
            r == params.score(board.squares(), board.side()),
            final(self).accumulator.white.0@ == params.accumulator(board.squares(), Color::White),
            final(self).accumulator.black.0@ == params.accumulator(board.squares(), Color::Black),
    {
        proof {
            use_type_invariant(params);
        }
        self.accumulator = Accumulator { white: params.feature_bias, black: params.feature_bias };
        let squares = board.piece_codes();
        let ghost weights = params.feature_weights();
        let ghost bias = params.feature_bias();
        let ghost bound = max_abs(weights, FEATURE_WEIGHTS as int);
        let mut sq: usize = 0;
        while sq < 64
            invariant
                sq <= 64,
                params.wf(),
                squares@ == board.squares(),
                valid_squares(squares@),
                weights == params.feature_weights(),
                bias == params.feature_bias(),
                bound == max_abs(weights, FEATURE_WEIGHTS as int),
                forall|j: int|
                    0 <= j < LAYER_1_SIZE ==> #[trigger] self.accumulator.white.0@[j] == bias[j]
                        + feature_total(weights, squares@, Color::White, j, sq as int),
                forall|j: int|
                    0 <= j < LAYER_1_SIZE ==> #[trigger] self.accumulator.black.0@[j] == bias[j]
                        + feature_total(weights, squares@, Color::Black, j, sq as int),
            decreases 64 - sq,
        {
            let code = squares[sq];
            if code != 0 {
                let colour = if code <= 6 {
                    Color::White
                } else {
                    Color::Black
                };
                let piece_type = match Role::from_index(((code - 1) % 6) as usize) {
                    Some(role) => role,
                    None => Role::King,
                };
                proof {
                    assert(colour == code_color(code as int));
                    assert(piece_type == code_role(code as int));
                    lemma_occupied_monotone(squares@, sq as int + 1, 64);
                    lemma_occupied_monotone(squares@, 0, sq as int);
                    let w_at = white_feature(colour, piece_type, sq as int);
                    let b_at = black_feature(colour, piece_type, sq as int);
                    let count = occupied_below(squares@, sq as int);
                    assert((count + 1) * bound <= MAX_PIECES * bound) by (nonlinear_arith)
                        requires
                            0 <= count + 1 <= MAX_PIECES,
                            0 <= bound,
                    ;
                    assert((count + 1) * bound == count * bound + bound) by (nonlinear_arith);
                    assert forall|j: int| 0 <= j < LAYER_1_SIZE implies i16::MIN
                        <= #[trigger] self.accumulator.white.0@[j] + weights[w_at * LAYER_1_SIZE
                        + j] <= i16::MAX by {
                        lemma_feature_total_bound(weights, squares@, Color::White, j, sq as int);
                        lemma_max_abs_bounds(weights, FEATURE_WEIGHTS as int, w_at * LAYER_1_SIZE + j);
                        lemma_max_abs_bounds(bias, LAYER_1_SIZE as int, j);
                    }
                    assert forall|j: int| 0 <= j < LAYER_1_SIZE implies i16::MIN
                        <= #[trigger] self.accumulator.black.0@[j] + weights[b_at * LAYER_1_SIZE
                        + j] <= i16::MAX by {
                        lemma_feature_total_bound(weights, squares@, Color::Black, j, sq as int);
                        lemma_max_abs_bounds(weights, FEATURE_WEIGHTS as int, b_at * LAYER_1_SIZE + j);
                        lemma_max_abs_bounds(bias, LAYER_1_SIZE as int, j);
                    }
                }
                self.update_feature::<Activate>(params, piece_type, colour, sq as u8);
            }
            sq = sq + 1;
        }
        proof {
            assert forall|j: int| 0 <= j < LAYER_1_SIZE implies #[trigger] self.accumulator.white.0@[j]
                == params.accumulator(squares@, Color::White)[j] by {}
            assert forall|j: int| 0 <= j < LAYER_1_SIZE implies #[trigger] self.accumulator.black.0@[j]
                == params.accumulator(squares@, Color::Black)[j] by {}
            assert(self.accumulator.white.0@ =~= params.accumulator(squares@, Color::White));
            assert(self.accumulator.black.0@ =~= params.accumulator(squares@, Color::Black));
        }
        self.accumulator.evaluate(params, board.side_to_move())
    }

    /// Updates both accumulators by switching a piece on or off.
    pub fn update_feature<A: Activation>(
        &mut self,
        params: &NNUEParams,
        piece_type: Role,
        colour: Color,
        sq: u8,
    )
        requires
            sq < 64,
            forall|j: int|
                0 <= j < LAYER_1_SIZE ==> i16::MIN <= #[trigger] old(self).accumulator.white.0@[j]
                    + signed(
                    A::ACTIVATE,
                    params.feature_weights()[white_feature(colour, piece_type, sq as int)
                        * LAYER_1_SIZE + j] as int,
                ) <= i16::MAX,
            forall|j: int|
                0 <= j < LAYER_1_SIZE ==> i16::MIN <= #[trigger] old(self).accumulator.black.0@[j]
                    + signed(
                    A::ACTIVATE,
                    params.feature_weights()[black_feature(colour, piece_type, sq as int)
                        * LAYER_1_SIZE + j] as int,
                ) <= i16::MAX,
        ensures
            forall|j: int|
                0 <= j < LAYER_1_SIZE ==> #[trigger] final(self).accumulator.white.0@[j] == old(
                    self,
                ).accumulator.white.0@[j] + signed(
                    A::ACTIVATE,
                    params.feature_weights()[white_feature(colour, piece_type, sq as int)
                        * LAYER_1_SIZE + j] as int,
                ),
            forall|j: int|
                0 <= j < LAYER_1_SIZE ==> #[trigger] final(self).accumulator.black.0@[j] == old(
                    self,
                ).accumulator.black.0@[j] + signed(
                    A::ACTIVATE,
                    params.feature_weights()[black_feature(colour, piece_type, sq as int)
                        * LAYER_1_SIZE + j] as int,
                ),
    {
        proof {
            use_type_invariant(params);
        }
        let (white_idx, black_idx) = feature_indices(sq, piece_type, colour);
        let weights = params.feature_weights.as_slice();
        if A::ACTIVATE {
            add_to_all(&mut self.accumulator.white, weights, white_idx * LAYER_1_SIZE);
            add_to_all(&mut self.accumulator.black, weights, black_idx * LAYER_1_SIZE);
        } else {
            sub_from_all(&mut self.accumulator.white, weights, white_idx * LAYER_1_SIZE);
            sub_from_all(&mut self.accumulator.black, weights, black_idx * LAYER_1_SIZE);
        }
    }
}

/// `w` for a feature switched on, `-w` for one switched off.
pub open spec fn signed(activate: bool, w: int) -> int {
    if activate {
        w
    } else {
        -w
    }
}

/// The 16-bit value whose low byte is `lo` and whose high byte is `hi`.
pub open spec fn le_i16(lo: u8, hi: u8) -> int {
    let unsigned = lo as int + 256 * (hi as int);
    if unsigned < 32768 {
        unsigned
    } else {
        unsigned - 65536
    }
}

/// The 16-bit values that `bytes` holds, low byte first; a last odd byte
/// is left out.
pub open spec fn decoded(bytes: Seq<u8>) -> Seq<i16> {
    Seq::new(bytes.len() / 2, |i: int| le_i16(bytes[2 * i], bytes[2 * i + 1]) as i16)
}

/// Reads a run of 16-bit values, low byte first.
pub fn decode_words(bytes: &[u8]) -> (r: Vec<i16>)
    ensures
        r@ == decoded(bytes@),
{
    let count = bytes.len() / 2;
    let mut words: Vec<i16> = Vec::with_capacity(count);
    let mut i: usize = 0;
    while i < count
        invariant
            i <= count,
            count == bytes.len() / 2,
            words@.len() == i,
            forall|k: int|
                0 <= k < i ==> #[trigger] words@[k] == le_i16(bytes@[2 * k], bytes@[2 * k + 1]),
        decreases count - i,
    {
        let lo = bytes[2 * i] as i32;
        let hi = bytes[2 * i + 1] as i32;
        let unsigned = lo + 256 * hi;
        let word: i16 = if unsigned < 32768 {
            unsigned as i16
        } else {
            (unsigned - 65536) as i16
        };
        words.push(word);
        i = i + 1;
    }
    proof {
        assert(words@ =~= decoded(bytes@));
    }
    words
}

/// The magnitude of `x`.
pub fn magnitude(x: i16) -> (r: i32)
    ensures
        r == abs(x as int),
        0 <= r <= 32768,
{
    if x < 0 {
        -(x as i32)
    } else {
        x as i32
    }
}

/// The largest magnitude among `values`, 0 for none.
pub fn largest_magnitude(values: &[i16]) -> (r: i32)
    ensures
        r == max_abs(values@, values@.len() as int),
        0 <= r <= 32768,
{
    let mut best: i32 = 0;
    let mut i: usize = 0;
    while i < values.len()
        invariant
            i <= values.len(),
            best == max_abs(values@, i as int),
            0 <= best <= 32768,
        decreases values.len() - i,
    {
        let m = magnitude(values[i]);
        if m > best {
            best = m;
        }
        i = i + 1;
    }
    best
}


/// The board seen from the other side: each piece in the other colour, on
/// the square with the same file on the rank counted from the other side.
pub open spec fn mirrored_board(squares: Seq<u8>) -> Seq<u8> {
    Seq::new(64, |sq: int| recolored(squares[mirrored(sq)] as int) as u8)
}

/// What the piece on square `sq` adds to hidden unit `unit` of the
/// accumulator of `view`.
pub open spec fn square_term(
    weights: Seq<i16>,
    squares: Seq<u8>,
    view: Color,
    unit: int,
    sq: int,
) -> int {
    if squares[sq] == 0 {
        0
    } else {
        weights[square_feature(squares[sq] as int, sq, view) * LAYER_1_SIZE + unit] as int
    }
}

/// Sum of `f` over the first `n` squares.
pub open spec fn square_sum(f: spec_fn(int) -> int, n: int) -> int
    decreases n,
{
    if n <= 0 {
        0
    } else {
        square_sum(f, n - 1) + f(n - 1)
    }
}

/// Sum of `f` over the eight squares of rank `rank`.
pub open spec fn rank_sum(f: spec_fn(int) -> int, rank: int) -> int {
    f(8 * rank) + f(8 * rank + 1) + f(8 * rank + 2) + f(8 * rank + 3) + f(8 * rank + 4) + f(
        8 * rank + 5,
    ) + f(8 * rank + 6) + f(8 * rank + 7)
}

/// The sum over the squares up to a rank is the sum up to the rank below
/// and the sum of the rank.
pub proof fn lemma_square_sum_rank(f: spec_fn(int) -> int, rank: int)
    requires
        0 <= rank,
    ensures
        square_sum(f, 8 * rank + 8) == square_sum(f, 8 * rank) + rank_sum(f, rank),
{
    reveal_with_fuel(square_sum, 9);
}

/// The sum over the board is the sum of its eight ranks.
pub proof fn lemma_square_sum_by_ranks(f: spec_fn(int) -> int)
    ensures
        square_sum(f, 64) == rank_sum(f, 0) + rank_sum(f, 1) + rank_sum(f, 2) + rank_sum(f, 3)
            + rank_sum(f, 4) + rank_sum(f, 5) + rank_sum(f, 6) + rank_sum(f, 7),
{
    lemma_square_sum_rank(f, 0);
    lemma_square_sum_rank(f, 1);
    lemma_square_sum_rank(f, 2);
    lemma_square_sum_rank(f, 3);
    lemma_square_sum_rank(f, 4);
    lemma_square_sum_rank(f, 5);
    lemma_square_sum_rank(f, 6);
    lemma_square_sum_rank(f, 7);
    assert(square_sum(f, 0) == 0);
}

/// The mirror image of the square on file `file` of rank `rank`.
pub proof fn lemma_mirrored_square(rank: int, file: int)
    requires
        0 <= rank < 8,
        0 <= file < 8,
    ensures
        mirrored(8 * rank + file) == 8 * (7 - rank) + file,
        0 <= 8 * rank + file < 64,
{
}

/// A rank of the board turned upside down is the rank counted from the
/// other side.
pub proof fn lemma_rank_mirrored(f: spec_fn(int) -> int, g: spec_fn(int) -> int, rank: int)
    requires
        0 <= rank < 8,
        forall|sq: int| 0 <= sq < 64 ==> #[trigger] g(sq) == f(mirrored(sq)),
    ensures
        rank_sum(g, rank) == rank_sum(f, 7 - rank),
{
    lemma_mirrored_square(rank, 0);
    lemma_mirrored_square(rank, 1);
    lemma_mirrored_square(rank, 2);
    lemma_mirrored_square(rank, 3);
    lemma_mirrored_square(rank, 4);
    lemma_mirrored_square(rank, 5);
    lemma_mirrored_square(rank, 6);
    lemma_mirrored_square(rank, 7);
    assert(g(8 * rank) == f(mirrored(8 * rank + 0)));
    assert(g(8 * rank + 1) == f(mirrored(8 * rank + 1)));
    assert(g(8 * rank + 2) == f(mirrored(8 * rank + 2)));
    assert(g(8 * rank + 3) == f(mirrored(8 * rank + 3)));
    assert(g(8 * rank + 4) == f(mirrored(8 * rank + 4)));
    assert(g(8 * rank + 5) == f(mirrored(8 * rank + 5)));
    assert(g(8 * rank + 6) == f(mirrored(8 * rank + 6)));
    assert(g(8 * rank + 7) == f(mirrored(8 * rank + 7)));
}

/// Summing over the board turned upside down gives the same sum.
pub proof fn lemma_square_sum_mirrored(f: spec_fn(int) -> int, g: spec_fn(int) -> int)
    requires
        forall|sq: int| 0 <= sq < 64 ==> #[trigger] g(sq) == f(mirrored(sq)),
    ensures
        square_sum(g, 64) == square_sum(f, 64),
{
    lemma_square_sum_by_ranks(f);
    lemma_square_sum_by_ranks(g);
    lemma_rank_mirrored(f, g, 0);
    lemma_rank_mirrored(f, g, 1);
    lemma_rank_mirrored(f, g, 2);
    lemma_rank_mirrored(f, g, 3);
    lemma_rank_mirrored(f, g, 4);
    lemma_rank_mirrored(f, g, 5);
    lemma_rank_mirrored(f, g, 6);
    lemma_rank_mirrored(f, g, 7);
}

/// What the pieces add to a hidden unit is the sum of what each square
/// adds.
pub proof fn lemma_feature_total_is_sum(
    weights: Seq<i16>,
    squares: Seq<u8>,
    view: Color,
    unit: int,
    n: int,
)
    ensures
        feature_total(weights, squares, view, unit, n) == square_sum(
            |sq: int| square_term(weights, squares, view, unit, sq),
            n,
        ),
    decreases n,
{
    if n > 0 {
        lemma_feature_total_is_sum(weights, squares, view, unit, n - 1);
    }
}

/// On the mirrored board each side finds in its accumulator what the other
/// side finds on the board itself.
pub proof fn lemma_mirror_swaps_accumulators(
    params: NNUEParams,
    squares: Seq<u8>,
    view: Color,
    unit: int,
)
    requires
        valid_squares(squares),
    ensures
        params.accumulated(mirrored_board(squares), view, unit) == params.accumulated(
            squares,
            view.opposite(),
            unit,
        ),
{
    let weights = params.feature_weights();
    let turned = mirrored_board(squares);
    let f = |sq: int| square_term(weights, squares, view.opposite(), unit, sq);
    let g = |sq: int| square_term(weights, turned, view, unit, sq);
    assert forall|sq: int| 0 <= sq < 64 implies #[trigger] g(sq) == f(mirrored(sq)) by {
        let from = mirrored(sq);
        assert(0 <= from < 64);
        assert(mirrored(from) == sq);
        let code = squares[from] as int;
        assert(squares[from] <= 12);
        assert(turned[sq] == recolored(code) as u8);
        if code != 0 {
            assert(code_color(recolored(code)) == code_color(code).opposite());
            assert(code_role(recolored(code)) == code_role(code));
        }
    }
    lemma_square_sum_mirrored(f, g);
    lemma_feature_total_is_sum(weights, squares, view.opposite(), unit, 64);
    lemma_feature_total_is_sum(weights, turned, view, unit, 64);
}

/// Seen from the other side, with the other side to move, a position has
/// the same score for the side to move.
pub proof fn lemma_mirror_keeps_score(params: NNUEParams, squares: Seq<u8>, side: Color)
    requires
        valid_squares(squares),
    ensures
        params.score(mirrored_board(squares), side.opposite()) == params.score(squares, side),
{
    let turned = mirrored_board(squares);
    assert(params.accumulator(turned, side.opposite()) =~= params.accumulator(squares, side)) by {
        assert forall|unit: int| 0 <= unit < LAYER_1_SIZE implies params.accumulated(
            turned,
            side.opposite(),
            unit,
        ) == params.accumulated(squares, side, unit) by {
            lemma_mirror_swaps_accumulators(params, squares, side.opposite(), unit);
        }
    }
    assert(params.accumulator(turned, side) =~= params.accumulator(squares, side.opposite())) by {
        assert forall|unit: int| 0 <= unit < LAYER_1_SIZE implies params.accumulated(
            turned,
            side,
            unit,
        ) == params.accumulated(squares, side.opposite(), unit) by {
            lemma_mirror_swaps_accumulators(params, squares, side, unit);
        }
    }
}

} // verus!
