use glm4_moe_lite::binary32::Binary32;
use glm4_moe_lite::cache::SteppingKeyValueCache;
use glm4_moe_lite::config::Glm4MoeLiteModelArgs;
use glm4_moe_lite::model::Glm4MoeLiteCausalLM;
use glm4_moe_lite::tape::{LayerPart, Op, Site, Span, Tape};

fn single(x: f32) -> Binary32 {
    Binary32 { bits: x.to_bits() }
}

fn settings() -> Glm4MoeLiteModelArgs {
    Glm4MoeLiteModelArgs {
        model_type: "glm4_moe_lite".to_owned(),
        hidden_size: 64,
        num_hidden_layers: 3,
        intermediate_size: 48,
        num_attention_heads: 4,
        num_key_value_heads: 4,
        rms_norm_eps: single(1e-6),
        vocab_size: 128,
        max_position_embeddings: 256,
        rope_theta: single(1_000_000.0),
        tie_word_embeddings: false,
        kv_lora_rank: 32,
        q_lora_rank: Some(20),
        qk_rope_head_dim: 8,
        v_head_dim: 12,
        qk_nope_head_dim: 16,
        n_routed_experts: Some(5),
        n_shared_experts: Some(2),
        num_experts_per_tok: Some(2),
        moe_intermediate_size: Some(24),
        routed_scaling_factor: Some(single(1.8)),
        first_k_dense_replace: 1,
        norm_topk_prob: true,
        num_nextn_predict_layers: 1,
        quantization: None,
    }
}

/// The features that the weights at a site take and give.
fn fans(args: &Glm4MoeLiteModelArgs, site: Site) -> (i32, i32) {
    let hidden = args.hidden_size;
    let heads = args.num_attention_heads;
    let rank = args.q_lora_rank.unwrap_or(0);
    let shared = args.n_shared_experts.unwrap_or(0) * args.moe_intermediate_size.unwrap_or(0);
    let queries = heads * args.q_head_dim();
    match site {
        Site::FinalNorm => (hidden, hidden),
        Site::LmHead => (hidden, args.vocab_size),
        Site::Layer(_, part) => match part {
            LayerPart::QAProj => (hidden, rank),
            LayerPart::QALayernorm => (rank, rank),
            LayerPart::QBProj => (rank, queries),
            LayerPart::QProj => (hidden, queries),
            LayerPart::KvAProjWithMqa => (hidden, args.kv_lora_rank + args.qk_rope_head_dim),
            LayerPart::KvALayernorm => (args.kv_lora_rank, args.kv_lora_rank),
            LayerPart::KvBProj => (
                args.kv_lora_rank,
                heads * (args.qk_nope_head_dim + args.v_head_dim),
            ),
            LayerPart::OProj => (heads * args.v_head_dim, hidden),
            LayerPart::RouterGate => (hidden, args.n_routed_experts.unwrap_or(0)),
            LayerPart::SwitchMlp => (hidden, hidden),
            LayerPart::SharedGateProj | LayerPart::SharedUpProj => (hidden, shared),
            LayerPart::SharedDownProj => (shared, hidden),
            LayerPart::DenseGateProj | LayerPart::DenseUpProj => (hidden, args.intermediate_size),
            LayerPart::DenseDownProj => (args.intermediate_size, hidden),
            LayerPart::InputLayernorm | LayerPart::PostAttentionLayernorm => (hidden, hidden),
        },
    }
}

fn reshaped(from: &[i32], to: &[i32]) -> Vec<i32> {
    let count: i32 = from.iter().product();
    let known: i32 = to.iter().filter(|&&d| d != -1).product();
    let shape: Vec<i32> = to
        .iter()
        .map(|&d| if d == -1 { count / known } else { d })
        .collect();
    assert_eq!(shape.iter().product::<i32>(), count);
    shape
}

/// Follows the shapes along a tape.
fn shapes(
    tape: &Tape,
    args: &Glm4MoeLiteModelArgs,
    ids: [i32; 2],
) -> Vec<Vec<i32>> {
    let mut all: Vec<Vec<i32>> = Vec::new();
    for instr in &tape.instrs {
        let operand = |k: usize| all[instr.args[k]].clone();
        let shape = match instr.op {
            Op::Inputs => ids.to_vec(),
            Op::GivenMask
            | Op::GivenCache { .. }
            | Op::CreateMask
            | Op::FillCaches { .. }
            | Op::ScalarLike { .. } => vec![],
            Op::Embed => [operand(0), vec![args.hidden_size]].concat(),
            Op::EmbedAsLinear => {
                let mut a = operand(0);
                assert_eq!(a.pop(), Some(args.hidden_size));
                a.push(args.vocab_size);
                a
            }
            Op::LeadingDims => operand(0)[..2].to_vec(),
            Op::QLinear(site) | Op::Linear(site) | Op::RmsNorm(site) => {
                let mut a = operand(0);
                let (takes, gives) = fans(args, site);
                assert_eq!(a.pop(), Some(takes), "{:?}", instr.op);
                a.push(gives);
                a
            }
            Op::SwitchMlp(site) => {
                let (takes, gives) = fans(args, site);
                assert_eq!(operand(0)[2], takes);
                [operand(1), vec![gives]].concat()
            }
            Op::Swiglu | Op::Add => {
                assert_eq!(operand(0), operand(1));
                operand(0)
            }
            Op::SplitHeads { heads, width } => {
                let d = operand(1);
                reshaped(&operand(0), &[d[0], d[1], heads, width])
            }
            Op::MergeHeads => {
                let d = operand(1);
                reshaped(&operand(0), &[d[0], d[1], -1])
            }
            Op::SwapHeads => {
                let a = operand(0);
                vec![a[0], a[2], a[1], a[3]]
            }
            Op::BroadcastHeads { heads, width } => {
                let d = operand(1);
                let target = vec![d[0], heads, d[1], width];
                for (from, to) in operand(0).iter().zip(&target) {
                    assert!(from == to || *from == 1);
                }
                target
            }
            Op::Slice { rank, axis, span } => {
                let mut a = operand(0);
                assert_eq!(a.len(), rank);
                a[axis] = match span {
                    Span::To(end) => end.min(a[axis]),
                    Span::From(start) if start < 0 => (-start).min(a[axis]),
                    Span::From(start) => a[axis] - start,
                };
                a
            }
            Op::Rope { width, .. } => {
                assert!(width <= *operand(0).last().unwrap());
                operand(0)
            }
            Op::Concat => {
                let (mut a, mut b) = (operand(0), operand(1));
                let last = a.pop().unwrap() + b.pop().unwrap();
                assert_eq!(a, b);
                a.push(last);
                a
            }
            Op::CacheUpdate { offset, .. } => vec![offset],
            Op::FetchedKeys | Op::FetchedValues => {
                let update = &tape.instrs[instr.args[0]];
                let side = usize::from(instr.op == Op::FetchedValues);
                let mut a = all[update.args[side]].clone();
                a[2] += all[instr.args[0]][0];
                a
            }
            Op::Attend { .. } => {
                let (q, k, v) = (operand(0), operand(1), operand(2));
                assert_eq!(q[..2], k[..2]);
                assert_eq!(k[..3], v[..3]);
                assert_eq!(q[3], k[3]);
                vec![q[0], q[1], q[2], v[3]]
            }
            Op::Softmax => operand(0),
            Op::ArgPartition { kth } => {
                let n = *operand(0).last().unwrap();
                assert!(-n <= kth && kth < n);
                operand(0)
            }
            Op::TakeAlong => operand(1),
            Op::SumLast => {
                let mut a = operand(0);
                *a.last_mut().unwrap() = 1;
                a
            }
            Op::SumExperts => {
                let mut a = operand(0);
                a.remove(a.len() - 2);
                a
            }
            Op::ExpandLast => [operand(0), vec![1]].concat(),
            Op::Multiply | Op::Divide => {
                for (a, b) in operand(0).iter().zip(&operand(1)) {
                    assert!(a == b || *b == 1);
                }
                operand(0)
            }
        };
        all.push(shape);
    }
    all
}

#[test]
fn hidden_states_keep_their_shape() {
    let args = settings();
    let model = Glm4MoeLiteCausalLM::new(args.clone()).unwrap();
    let mut tape = Tape::new();
    let place = model
        .forward_hidden(&mut tape, 7, false, &mut Vec::new())
        .unwrap();
    let all = shapes(&tape, &args, [2, 7]);
    assert_eq!(all[place], [2, 7, 64]);
    for (instr, shape) in tape.instrs.iter().zip(&all) {
        if instr.op == Op::Add {
            assert_eq!(shape, &[2, 7, 64]);
        }
    }
}

#[test]
fn attention_spans_the_cached_positions() {
    let args = settings();
    let model = Glm4MoeLiteCausalLM::new(args.clone()).unwrap();
    let mut cache = vec![Some(SteppingKeyValueCache { offset: 10 }); 3];
    let mut tape = Tape::new();
    let place = model
        .forward_hidden(&mut tape, 1, true, &mut cache)
        .unwrap();
    let all = shapes(&tape, &args, [1, 1]);
    assert_eq!(all[place], [1, 1, 64]);
    assert_eq!(cache, vec![Some(SteppingKeyValueCache { offset: 11 }); 3]);
    for (i, instr) in tape.instrs.iter().enumerate() {
        if instr.op == Op::FetchedKeys {
            assert_eq!(all[i], [1, 4, 11, 24]);
        }
        if instr.op == Op::FetchedValues {
            assert_eq!(all[i], [1, 4, 11, 12]);
        }
        if matches!(instr.op, Op::Attend { .. }) {
            assert_eq!(all[instr.args[0]], [1, 4, 1, 24]);
            assert_eq!(all[i], [1, 4, 1, 12]);
        }
    }
}

#[test]
fn scores_have_one_entry_for_each_token_of_the_vocabulary() {
    for tied in [false, true] {
        let mut args = settings();
        args.tie_word_embeddings = tied;
        args.q_lora_rank = None;
        let model = Glm4MoeLiteCausalLM::new(args.clone()).unwrap();
        let mut last = Tape::new();
        let place = model
            .forward(&mut last, 7, false, &mut Vec::new())
            .unwrap();
        assert_eq!(shapes(&last, &args, [2, 7])[place], [2, 1, 128]);
        let mut every = Tape::new();
        let place = model
            .forward_all_logits(&mut every, 7, false, &mut Vec::new())
            .unwrap();
        assert_eq!(shapes(&every, &args, [2, 7])[place], [2, 7, 128]);
    }
}

#[test]
fn a_token_goes_to_as_many_experts_as_set() {
    let args = settings();
    let model = Glm4MoeLiteCausalLM::new(args.clone()).unwrap();
    let mut tape = Tape::new();
    model
        .forward(&mut tape, 7, false, &mut Vec::new())
        .unwrap();
    let all = shapes(&tape, &args, [2, 7]);
    let mut routed = 0;
    for (i, instr) in tape.instrs.iter().enumerate() {
        if let Op::SwitchMlp(_) = instr.op {
            assert_eq!(all[instr.args[1]], [2, 7, 2]);
            assert_eq!(all[i], [2, 7, 2, 64]);
            routed += 1;
        }
        if let Op::ArgPartition { kth } = instr.op {
            assert_eq!(
                tape.instrs[i + 1].op,
                Op::Slice {
                    rank: 3,
                    axis: 2,
                    span: Span::From(5 + kth)
                }
            );
        }
    }
    assert_eq!(routed, 2);
}

#[test]
fn values_are_as_wide_as_the_weights_make_them() {
    let args = settings();
    let model = Glm4MoeLiteCausalLM::new(args.clone()).unwrap();
    let mut tape = Tape::new();
    let place = model
        .forward_hidden(&mut tape, 7, false, &mut Vec::new())
        .unwrap();
    let mut weights = args;
    weights.v_head_dim = 20;
    let all = shapes(&tape, &weights, [2, 7]);
    assert_eq!(all[place], [2, 7, 64]);
    for (i, instr) in tape.instrs.iter().enumerate() {
        if instr.op == Op::FetchedValues {
            assert_eq!(all[i], [2, 4, 7, 20]);
        }
        if instr.op == Op::MergeHeads {
            assert_eq!(all[i], [2, 7, 80]);
        }
    }
}
