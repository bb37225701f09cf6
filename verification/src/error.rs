//! What can be wrong with a configuration, a model or a call.
use vstd::prelude::*;
use vstd::string::*;

verus! {

/// A module that a forward pass calls for and the model does not have.
#[derive(Debug, Clone, Copy, PartialEq, Eq, Structural)]
pub enum Module {
    QAProj,
    QALayernorm,
    QBProj,
    QProj,
    RouterGate,
    SwitchMlp,
    DenseGateProj,
    DenseDownProj,
    DenseUpProj,
}

/// Why a model cannot be laid out or a forward pass cannot go on.
#[derive(Debug, Clone, Copy, PartialEq, Eq, Structural)]
pub enum ModelError {
    NumHiddenLayersNotPositive,
    VocabSizeNotPositive,
    NumAttentionHeadsNotPositive,
    QHeadDimOutOfRange,
    RoutedExpertsRequired,
    TooFewDims,
    Missing(Module),
    CacheLengthMismatch { cache: usize, layers: usize },
}

/// The decimal digit `d`.
pub open spec fn digit(d: nat) -> char {
    if d == 0 {
        '0'
    } else if d == 1 {
        '1'
    } else if d == 2 {
        '2'
    } else if d == 3 {
        '3'
    } else if d == 4 {
        '4'
    } else if d == 5 {
        '5'
    } else if d == 6 {
        '6'
    } else if d == 7 {
        '7'
    } else if d == 8 {
        '8'
    } else {
        '9'
    }
}

/// `n` in decimal notation, without leading zeros.
pub open spec fn decimal(n: nat) -> Seq<char>
    decreases n,
{
    if n < 10 {
        seq![digit(n)]
    } else {
        decimal(n / 10).push(digit(n % 10))
    }
}

/// Appends a number below ten.
fn append_digit(text: &mut String, d: usize)
    requires
        d < 10,
    ensures
        final(text)@ == old(text)@.push(digit(d as nat)),
{
    proof {
        reveal_strlit("0");
        reveal_strlit("1");
        reveal_strlit("2");
        reveal_strlit("3");
        reveal_strlit("4");
        reveal_strlit("5");
        reveal_strlit("6");
        reveal_strlit("7");
        reveal_strlit("8");
        reveal_strlit("9");
    }
    let numeral: &str = match d {
        0 => "0",
        1 => "1",
        2 => "2",
        3 => "3",
        4 => "4",
        5 => "5",
        6 => "6",
        7 => "7",
        8 => "8",
        _ => "9",
    };
    text.append(numeral);
    assert(text@ =~= old(text)@.push(digit(d as nat)));
}

/// Appends a number in decimal notation.
fn append_decimal(text: &mut String, n: usize)
    ensures
        final(text)@ == old(text)@ + decimal(n as nat),
    decreases n,
{
    if n >= 10 {
        append_decimal(text, n / 10);
    }
    append_digit(text, n % 10);
    assert(text@ =~= old(text)@ + decimal(n as nat));
}

impl Module {
    /// The text that says that the module is missing.
    pub open spec fn missing_text(self) -> Seq<char> {
        match self {
            Module::QAProj => "q_a_proj missing"@,
            Module::QALayernorm => "q_a_layernorm missing"@,
            Module::QBProj => "q_b_proj missing"@,
            Module::QProj => "q_proj missing"@,
            Module::RouterGate => "MoE router gate missing"@,
            Module::SwitchMlp => "MoE switch_mlp missing"@,
            Module::DenseGateProj => "dense gate_proj missing"@,
            Module::DenseDownProj => "dense down_proj missing"@,
            Module::DenseUpProj => "dense up_proj missing"@,
        }
    }

    fn missing_message(self) -> (text: &'static str)
        ensures
            text@ == self.missing_text(),
    {
        match self {
            Module::QAProj => "q_a_proj missing",
            Module::QALayernorm => "q_a_layernorm missing",
            Module::QBProj => "q_b_proj missing",
            Module::QProj => "q_proj missing",
            Module::RouterGate => "MoE router gate missing",
            Module::SwitchMlp => "MoE switch_mlp missing",
            Module::DenseGateProj => "dense gate_proj missing",
            Module::DenseDownProj => "dense down_proj missing",
            Module::DenseUpProj => "dense up_proj missing",
        }
    }
}

impl ModelError {
    /// The text of the error.
    pub open spec fn text(self) -> Seq<char> {
        match self {
            ModelError::NumHiddenLayersNotPositive => "num_hidden_layers must be positive"@,
            ModelError::VocabSizeNotPositive => "vocab_size must be positive"@,
            ModelError::NumAttentionHeadsNotPositive => "num_attention_heads must be positive"@,
            ModelError::QHeadDimOutOfRange => "q_head_dim out of i16 range"@,
            ModelError::RoutedExpertsRequired => "n_routed_experts required for MoE layer"@,
            ModelError::TooFewDims => "Input must have >= 2 dims"@,
            ModelError::Missing(module) => module.missing_text(),
            ModelError::CacheLengthMismatch { cache, layers } => "kv_cache length ("@ + decimal(
                cache as nat,
            ) + ") must match num layers ("@ + decimal(layers as nat) + ")"@,
        }
    }

    /// The error in words.
    pub fn message(&self) -> (text: String)
        ensures
            text@ == self.text(),
    {
        match *self {
            ModelError::NumHiddenLayersNotPositive =>
                "num_hidden_layers must be positive".to_owned(),
            ModelError::VocabSizeNotPositive => "vocab_size must be positive".to_owned(),
            ModelError::NumAttentionHeadsNotPositive =>
                "num_attention_heads must be positive".to_owned(),
            ModelError::QHeadDimOutOfRange => "q_head_dim out of i16 range".to_owned(),
            ModelError::RoutedExpertsRequired =>
                "n_routed_experts required for MoE layer".to_owned(),
            ModelError::TooFewDims => "Input must have >= 2 dims".to_owned(),
            ModelError::Missing(module) => module.missing_message().to_owned(),
            ModelError::CacheLengthMismatch { cache, layers } => {
                let mut text = "kv_cache length (".to_owned();
                append_decimal(&mut text, cache);
                text.append(") must match num layers (");
                append_decimal(&mut text, layers);
                text.append(")");
                text
            },
        }
    }
}

/// The number that decimal digits stand for.
pub open spec fn number(digits: Seq<char>) -> int
    decreases digits.len(),
{
    if digits.len() == 0 {
        0
    } else {
        10 * number(digits.drop_last()) + (digits.last() as int - '0' as int)
    }
}

/// Decimal notation reads back as the number. It is made of digits, and does not
/// start with a zero unless it is one.
pub proof fn law_decimal_notation_reads_back(n: nat)
    ensures
        number(decimal(n)) == n,
        decimal(n).len() >= 1,
        forall|i: int| 0 <= i < decimal(n).len() ==> '0' <= #[trigger] decimal(n)[i] <= '9',
        decimal(n)[0] == '0' ==> n == 0 && decimal(n).len() == 1,
    decreases n,
{
    if n < 10 {
        assert(seq![digit(n)].drop_last() =~= seq![]);
        reveal_with_fuel(number, 2);
    } else {
        law_decimal_notation_reads_back(n / 10);
        assert(decimal(n).drop_last() =~= decimal(n / 10));
        assert(decimal(n)[0] == decimal(n / 10)[0]);
    }
}

/// The text on caches that do not match the layers gives both numbers in decimal
/// notation, the caches first.
pub proof fn law_mismatches_are_told_by_number(cache: usize, layers: usize)
    ensures
        ({
            let text = (ModelError::CacheLengthMismatch { cache, layers }).text();
            exists|a: Seq<char>, b: Seq<char>|
                {
                    &&& text == "kv_cache length ("@ + a + ") must match num layers ("@ + b + ")"@
                    &&& #[trigger] number(a) == cache
                    &&& #[trigger] number(b) == layers
                }
        }),
{
    law_decimal_notation_reads_back(cache as nat);
    law_decimal_notation_reads_back(layers as nat);
}

} // verus!
