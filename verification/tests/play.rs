//! Plays recorded passes on small arrays of made-up weights.
use glm4_moe_lite::binary32::Binary32;
use glm4_moe_lite::cache::SteppingKeyValueCache;
use glm4_moe_lite::config::Glm4MoeLiteModelArgs;
use glm4_moe_lite::mlp::Glm4MoeLiteMlpBlock;
use glm4_moe_lite::model::Glm4MoeLiteCausalLM;
use glm4_moe_lite::tape::{Instr, LayerPart, Op, Site, Span, Tape};

fn single(x: f32) -> Binary32 {
    Binary32 { bits: x.to_bits() }
}

fn settings() -> Glm4MoeLiteModelArgs {
    Glm4MoeLiteModelArgs {
        model_type: "glm4_moe_lite".to_owned(),
        hidden_size: 8,
        num_hidden_layers: 3,
        intermediate_size: 6,
        num_attention_heads: 2,
        num_key_value_heads: 2,
        rms_norm_eps: single(1e-6),
        vocab_size: 11,
        max_position_embeddings: 64,
        rope_theta: single(100.0),
        tie_word_embeddings: false,
        kv_lora_rank: 5,
        q_lora_rank: Some(4),
        qk_rope_head_dim: 4,
        v_head_dim: 3,
        qk_nope_head_dim: 2,
        n_routed_experts: Some(4),
        n_shared_experts: Some(1),
        num_experts_per_tok: Some(2),
        moe_intermediate_size: Some(3),
        routed_scaling_factor: Some(single(1.5)),
        first_k_dense_replace: 1,
        norm_topk_prob: true,
        num_nextn_predict_layers: 0,
        quantization: None,
    }
}

#[derive(Debug, Clone, PartialEq)]
struct Block {
    shape: Vec<usize>,
    data: Vec<f64>,
}

impl Block {
    fn new(shape: &[usize], data: Vec<f64>) -> Block {
        assert_eq!(shape.iter().product::<usize>(), data.len());
        Block {
            shape: shape.to_vec(),
            data,
        }
    }

    fn last(&self) -> usize {
        *self.shape.last().unwrap()
    }

    /// Maps each run of elements along the last axis.
    fn rows<F: Fn(&[f64]) -> Vec<f64>>(&self, f: F) -> Block {
        let mut shape = self.shape.clone();
        let mut data = Vec::new();
        for row in self.data.chunks(self.last()) {
            let out = f(row);
            *shape.last_mut().unwrap() = out.len();
            data.extend(out);
        }
        Block::new(&shape, data)
    }

    fn reshape(&self, shape: &[i32]) -> Block {
        let known: i32 = shape.iter().filter(|&&d| d != -1).product();
        let dims: Vec<usize> = shape
            .iter()
            .map(|&d| {
                if d == -1 {
                    self.data.len() / known as usize
                } else {
                    d as usize
                }
            })
            .collect();
        Block::new(&dims, self.data.clone())
    }

    fn swap_middle(&self) -> Block {
        let s = &self.shape;
        let mut data = Vec::new();
        for b in 0..s[0] {
            for j in 0..s[2] {
                for i in 0..s[1] {
                    let at = ((b * s[1] + i) * s[2] + j) * s[3];
                    data.extend_from_slice(&self.data[at..at + s[3]]);
                }
            }
        }
        Block::new(&[s[0], s[2], s[1], s[3]], data)
    }

    fn slice(&self, axis: usize, from: usize, to: usize) -> Block {
        let size = self.shape[axis];
        let inner: usize = self.shape[axis + 1..].iter().product();
        let mut data = Vec::new();
        for chunk in self.data.chunks(size * inner) {
            data.extend_from_slice(&chunk[from * inner..to * inner]);
        }
        let mut shape = self.shape.clone();
        shape[axis] = to - from;
        Block::new(&shape, data)
    }

    /// Puts another block behind this one along an axis.
    fn join(&self, other: &Block, axis: usize) -> Block {
        let inner: usize = self.shape[axis + 1..].iter().product();
        let (n, k) = (self.shape[axis] * inner, other.shape[axis] * inner);
        let outer: usize = self.shape[..axis].iter().product();
        let mut data = Vec::new();
        for i in 0..outer {
            data.extend_from_slice(&self.data[i * n..(i + 1) * n]);
            data.extend_from_slice(&other.data[i * k..(i + 1) * k]);
        }
        let mut shape = self.shape.clone();
        shape[axis] += other.shape[axis];
        Block::new(&shape, data)
    }

    /// Combines elements, with sizes of 1 in the other block stretched.
    fn combine<F: Fn(f64, f64) -> f64>(&self, other: &Block, f: F) -> Block {
        let mut data = Vec::new();
        for (at, &a) in self.data.iter().enumerate() {
            let mut rest = at;
            let mut from = 0;
            let mut stride = 1;
            for axis in (0..other.shape.len()).rev() {
                let i = rest % self.shape[axis];
                rest /= self.shape[axis];
                if other.shape[axis] != 1 {
                    assert_eq!(other.shape[axis], self.shape[axis]);
                    from += i * stride;
                }
                stride *= other.shape[axis];
            }
            data.push(f(a, other.data[from]));
        }
        Block::new(&self.shape, data)
    }
}

fn close(a: &Block, b: &Block) {
    assert_eq!(a.shape, b.shape);
    for (x, y) in a.data.iter().zip(&b.data) {
        assert!((x - y).abs() < 1e-9, "{x} {y}");
    }
}

fn made_up(name: &str, i: usize, j: usize) -> f64 {
    let seed: usize = name.bytes().map(usize::from).enumerate().map(|(k, b)| (k + 1) * b).sum();
    ((seed * 31 + i * 17 + j * 7) as f64 * 0.7).sin()
}

fn fans(args: &Glm4MoeLiteModelArgs, site: Site) -> i32 {
    let heads = args.num_attention_heads;
    match site {
        Site::FinalNorm => args.hidden_size,
        Site::LmHead => args.vocab_size,
        Site::Layer(_, part) => match part {
            LayerPart::QAProj => args.q_lora_rank.unwrap(),
            LayerPart::QBProj | LayerPart::QProj => heads * args.q_head_dim(),
            LayerPart::KvAProjWithMqa => args.kv_lora_rank + args.qk_rope_head_dim,
            LayerPart::KvBProj => heads * (args.qk_nope_head_dim + args.v_head_dim),
            LayerPart::RouterGate => args.n_routed_experts.unwrap(),
            LayerPart::SharedGateProj | LayerPart::SharedUpProj => 3,
            LayerPart::DenseGateProj | LayerPart::DenseUpProj => args.intermediate_size,
            _ => args.hidden_size,
        },
    }
}

/// Keys and values by layer.
type Held = Vec<Option<(Block, Block)>>;

struct Player<'a> {
    args: &'a Glm4MoeLiteModelArgs,
    inputs: Block,
    held: Held,
}

impl Player<'_> {
    fn project(&self, site: Site, x: &Block) -> Block {
        let name = format!("{site:?}");
        let out = fans(self.args, site) as usize;
        x.rows(|row| {
            (0..out)
                .map(|j| row.iter().enumerate().map(|(i, v)| v * made_up(&name, i, j)).sum())
                .collect()
        })
    }

    fn play(&mut self, tape: &Tape) -> Vec<Block> {
        let mut all: Vec<Block> = Vec::new();
        for instr in &tape.instrs {
            let value = self.step(tape, instr, &all);
            all.push(value);
        }
        all
    }

    fn step(&mut self, tape: &Tape, instr: &Instr, all: &[Block]) -> Block {
        let operand = |k: usize| &all[instr.args[k]];
        let nothing = Block::new(&[0], vec![]);
        match instr.op {
            Op::Inputs => self.inputs.clone(),
            Op::GivenMask | Op::GivenCache { .. } => nothing,
            Op::FillCaches { layers } => {
                self.held = vec![None; layers];
                nothing
            }
            Op::CreateMask => {
                let past = instr.args[1..]
                    .iter()
                    .find_map(|&a| match tape.instrs[a].op {
                        Op::GivenCache { cache, .. } => cache,
                        _ => None,
                    })
                    .map_or(0, |c: SteppingKeyValueCache| c.offset as usize);
                let length = operand(0).shape[1];
                let mut data = Vec::new();
                for t in 0..length {
                    for u in 0..past + length {
                        data.push(if u <= past + t { 0.0 } else { f64::NEG_INFINITY });
                    }
                }
                Block::new(&[length, past + length], data)
            }
            Op::Embed => {
                let hidden = self.args.hidden_size as usize;
                let mut shape = operand(0).shape.clone();
                shape.push(hidden);
                let ids = &operand(0).data;
                Block::new(
                    &shape,
                    ids.iter()
                        .flat_map(|&id| (0..hidden).map(move |j| made_up("embed", id as usize, j)))
                        .collect(),
                )
            }
            Op::EmbedAsLinear => operand(0).rows(|row| {
                (0..self.args.vocab_size as usize)
                    .map(|t| row.iter().enumerate().map(|(j, v)| v * made_up("embed", t, j)).sum())
                    .collect()
            }),
            Op::LeadingDims => Block::new(
                &[2],
                operand(0).shape[..2].iter().map(|&d| d as f64).collect(),
            ),
            Op::QLinear(site) | Op::Linear(site) => self.project(site, operand(0)),
            Op::RmsNorm(_) => operand(0).rows(|row| {
                let mean = row.iter().map(|v| v * v).sum::<f64>() / row.len() as f64;
                row.iter().map(|v| v / (mean + 1e-6).sqrt()).collect()
            }),
            Op::SwitchMlp(site) => {
                let name = format!("{site:?}");
                let (x, chosen) = (operand(0), operand(1));
                let mut data = Vec::new();
                for (row, experts) in x.data.chunks(x.last()).zip(chosen.data.chunks(chosen.last()))
                {
                    for &e in experts {
                        for j in 0..x.last() {
                            let dot: f64 = row
                                .iter()
                                .enumerate()
                                .map(|(i, v)| v * made_up(&name, i + 100 * e as usize, j))
                                .sum();
                            data.push(dot.tanh());
                        }
                    }
                }
                let mut shape = chosen.shape.clone();
                shape.push(x.last());
                Block::new(&shape, data)
            }
            Op::Swiglu => operand(0).combine(operand(1), |a, b| a / (1.0 + (-a).exp()) * b),
            Op::SplitHeads { heads, width } => {
                let d = &operand(1).data;
                operand(0).reshape(&[d[0] as i32, d[1] as i32, heads, width])
            }
            Op::MergeHeads => {
                let d = &operand(1).data;
                operand(0).reshape(&[d[0] as i32, d[1] as i32, -1])
            }
            Op::SwapHeads => operand(0).swap_middle(),
            Op::BroadcastHeads { heads, .. } => {
                let mut stretched = operand(0).clone();
                for _ in 1..heads {
                    stretched = stretched.join(operand(0), 1);
                }
                stretched
            }
            Op::Slice { rank, axis, span } => {
                let x = operand(0);
                assert_eq!(x.shape.len(), rank);
                let size = x.shape[axis];
                match span {
                    Span::To(end) => x.slice(axis, 0, end as usize),
                    Span::From(start) if start < 0 => {
                        x.slice(axis, size - start.unsigned_abs() as usize, size)
                    }
                    Span::From(start) => x.slice(axis, start as usize, size),
                }
            }
            Op::Rope {
                width,
                base,
                offset,
            } => {
                let x = operand(0);
                let half = width as usize / 2;
                let base = f64::from(f32::from_bits(base.bits));
                let mut out = x.clone();
                for (at, row) in out.data.chunks_mut(x.last()).enumerate() {
                    let position = offset as f64 + (at % x.shape[2]) as f64;
                    for i in 0..half {
                        let angle = position * base.powf(-(i as f64) / half as f64);
                        let (a, b) = (row[i], row[i + half]);
                        row[i] = a * angle.cos() - b * angle.sin();
                        row[i + half] = a * angle.sin() + b * angle.cos();
                    }
                }
                out
            }
            Op::Concat => operand(0).join(operand(1), operand(0).shape.len() - 1),
            Op::CacheUpdate { layer, offset } => {
                let (keys, values) = (operand(0).clone(), operand(1).clone());
                let slot = &mut self.held[layer];
                *slot = Some(match slot.take() {
                    Some((k, v)) => {
                        assert_eq!(k.shape[2], offset as usize);
                        (k.join(&keys, 2), v.join(&values, 2))
                    }
                    None => {
                        assert_eq!(offset, 0);
                        (keys, values)
                    }
                });
                nothing
            }
            Op::FetchedKeys | Op::FetchedValues => {
                let update = &tape.instrs[instr.args[0]];
                let layer = match update.op {
                    Op::CacheUpdate { layer, .. } => layer,
                    _ => unreachable!(),
                };
                let (keys, values) = self.held[layer].clone().unwrap();
                if instr.op == Op::FetchedKeys {
                    keys
                } else {
                    values
                }
            }
            Op::Attend { head_dim } => {
                attend(operand(0), operand(1), operand(2), operand(3), head_dim)
            }
            Op::Softmax => operand(0).rows(softmax),
            Op::ArgPartition { .. } => {
                operand(0).rows(|row| ranked(row).iter().map(|&p| p as f64).collect())
            }
            Op::TakeAlong => {
                let (x, places) = (operand(0), operand(1));
                let mut data = Vec::new();
                for (row, at) in x.data.chunks(x.last()).zip(places.data.chunks(places.last())) {
                    data.extend(at.iter().map(|&p| row[p as usize]));
                }
                Block::new(&places.shape, data)
            }
            Op::SumLast => operand(0).rows(|row| vec![row.iter().sum()]),
            Op::SumExperts => {
                let x = operand(0);
                let (k, width) = (x.shape[2], x.shape[3]);
                let mut data = Vec::new();
                for token in x.data.chunks(k * width) {
                    data.extend(
                        (0..width).map(|j| (0..k).map(|e| token[e * width + j]).sum::<f64>()),
                    );
                }
                Block::new(&[x.shape[0], x.shape[1], width], data)
            }
            Op::ScalarLike { value } => {
                Block::new(&[], vec![f64::from(f32::from_bits(value.bits))])
            }
            Op::ExpandLast => {
                let mut shape = operand(0).shape.clone();
                shape.push(1);
                Block::new(&shape, operand(0).data.clone())
            }
            Op::Add => operand(0).combine(operand(1), |a, b| a + b),
            Op::Multiply => operand(0).combine(operand(1), |a, b| a * b),
            Op::Divide => operand(0).combine(operand(1), |a, b| a / b),
        }
    }
}

/// The places of the elements of a row, from the least element to the greatest.
fn ranked(row: &[f64]) -> Vec<usize> {
    let mut places: Vec<usize> = (0..row.len()).collect();
    places.sort_by(|&a, &b| row[a].partial_cmp(&row[b]).unwrap());
    places
}

fn softmax(row: &[f64]) -> Vec<f64> {
    let top = row.iter().cloned().fold(f64::NEG_INFINITY, f64::max);
    let parts: Vec<f64> = row.iter().map(|v| (v - top).exp()).collect();
    let sum: f64 = parts.iter().sum();
    parts.iter().map(|v| v / sum).collect()
}

fn attend(q: &Block, k: &Block, v: &Block, mask: &Block, head_dim: i16) -> Block {
    let (batch, heads, length, width) = (q.shape[0], q.shape[1], q.shape[2], q.shape[3]);
    let (seen, out) = (k.shape[2], v.shape[3]);
    assert_eq!(mask.shape, [length, seen]);
    let scale = f64::from(head_dim).sqrt().recip();
    let mut data = Vec::new();
    for bh in 0..batch * heads {
        for t in 0..length {
            let query = &q.data[(bh * length + t) * width..][..width];
            let scores: Vec<f64> = (0..seen)
                .map(|u| {
                    let key = &k.data[(bh * seen + u) * width..][..width];
                    let dot: f64 = query.iter().zip(key).map(|(a, b)| a * b).sum();
                    dot * scale + mask.data[t * seen + u]
                })
                .collect();
            let weights = softmax(&scores);
            for j in 0..out {
                data.push((0..seen).map(|u| weights[u] * v.data[(bh * seen + u) * out + j]).sum());
            }
        }
    }
    Block::new(&[batch, heads, length, out], data)
}

type Forward = fn(
    &Glm4MoeLiteCausalLM,
    &mut Tape,
    i32,
    bool,
    &mut Vec<Option<SteppingKeyValueCache>>,
) -> Result<usize, glm4_moe_lite::error::ModelError>;

/// Records a pass over token ids and plays it.
fn run(
    model: &Glm4MoeLiteCausalLM,
    forward: Forward,
    ids: &[u8],
    states: &mut Vec<Option<SteppingKeyValueCache>>,
    held: &mut Held,
) -> Block {
    let mut tape = Tape::new();
    let place = forward(model, &mut tape, ids.len() as i32, false, states).unwrap();
    let inputs = Block::new(&[1, ids.len()], ids.iter().map(|&id| f64::from(id)).collect());
    let mut player = Player {
        args: &model.args,
        inputs,
        held: held.clone(),
    };
    let all = player.play(&tape);
    *held = player.held;
    all[place].clone()
}

const IDS: [u8; 7] = [3, 1, 4, 1, 5, 9, 2];

#[test]
fn several_passes_give_the_hidden_states_of_one_pass() {
    let model = Glm4MoeLiteCausalLM::new(settings()).unwrap();
    let (mut states, mut held) = (Vec::new(), Vec::new());
    let hidden = Glm4MoeLiteCausalLM::forward_hidden;
    let whole = run(&model, hidden, &IDS, &mut states, &mut held);
    assert_eq!(whole.shape, [1, 7, 8]);
    for cuts in [vec![4, 7], vec![1, 2, 3, 4, 5, 6, 7], vec![5, 6, 7]] {
        let (mut states2, mut held2) = (Vec::new(), Vec::new());
        let mut from = 0;
        for to in cuts {
            let part = run(&model, hidden, &IDS[from..to], &mut states2, &mut held2);
            close(&part, &whole.slice(1, from, to));
            assert_eq!(
                states2,
                vec![Some(SteppingKeyValueCache { offset: to as i32 }); 3]
            );
            from = to;
        }
        assert_eq!(states2, states);
        for (a, b) in held2.iter().zip(&held) {
            let (a, b) = (a.as_ref().unwrap(), b.as_ref().unwrap());
            close(&a.0, &b.0);
            close(&a.1, &b.1);
            assert_eq!(a.0.shape, [1, 2, 7, 6]);
            assert_eq!(a.1.shape, [1, 2, 7, 3]);
        }
    }
}

#[test]
fn several_passes_end_with_the_scores_of_one_pass() {
    for tied in [false, true] {
        let mut args = settings();
        args.tie_word_embeddings = tied;
        args.q_lora_rank = None;
        let model = Glm4MoeLiteCausalLM::new(args).unwrap();
        let forward = Glm4MoeLiteCausalLM::forward;
        let whole = run(&model, forward, &IDS, &mut Vec::new(), &mut Vec::new());
        let (mut states, mut held) = (Vec::new(), Vec::new());
        run(&model, forward, &IDS[..5], &mut states, &mut held);
        let end = run(&model, forward, &IDS[5..], &mut states, &mut held);
        close(&end, &whole);
        assert_eq!(end.shape, [1, 1, 11]);
    }
}

#[test]
fn the_scores_of_the_last_position_are_the_last_of_all_scores() {
    for tied in [false, true] {
        let mut args = settings();
        args.tie_word_embeddings = tied;
        let model = Glm4MoeLiteCausalLM::new(args).unwrap();
        let (mut states, mut held) = (Vec::new(), Vec::new());
        let last = run(
            &model,
            Glm4MoeLiteCausalLM::forward,
            &IDS,
            &mut states,
            &mut held,
        );
        let (mut states2, mut held2) = (Vec::new(), Vec::new());
        let every = run(
            &model,
            Glm4MoeLiteCausalLM::forward_all_logits,
            &IDS,
            &mut states2,
            &mut held2,
        );
        close(&last, &every.slice(1, 6, 7));
        assert_eq!(states, states2);
    }
}

/// What a routed block makes of hidden states.
fn routed(args: &Glm4MoeLiteModelArgs, x: &Block) -> Block {
    let block = Glm4MoeLiteMlpBlock::new_moe(args, 64, 4).unwrap();
    let mut tape = Tape::new();
    let inputs = tape.record0(Op::Inputs);
    let place = block.forward(&mut tape, 1, inputs).unwrap();
    let mut player = Player {
        args,
        inputs: x.clone(),
        held: Vec::new(),
    };
    player.play(&tape)[place].clone()
}

fn hidden_states(length: usize) -> Block {
    let data = (0..length * 8).map(|i| (i as f64 * 1.3).cos()).collect();
    Block::new(&[1, length, 8], data)
}

#[test]
fn to_reorder_the_tokens_reorders_the_outcomes_of_a_routed_block() {
    let args = settings();
    let x = hidden_states(4);
    let out = routed(&args, &x);
    let pick = |b: &Block, order: &[usize]| {
        let mut picked = b.slice(1, order[0], order[0] + 1);
        for &t in &order[1..] {
            picked = picked.join(&b.slice(1, t, t + 1), 1);
        }
        picked
    };
    for order in [vec![3, 1, 0, 2], vec![2], vec![1, 1, 3]] {
        close(&routed(&args, &pick(&x, &order)), &pick(&out, &order));
    }
    assert_ne!(routed(&args, &pick(&x, &[3, 1, 0, 2])), out);
}

#[test]
fn a_choice_of_all_experts_needs_no_normalisation() {
    let mut args = settings();
    args.num_experts_per_tok = args.n_routed_experts;
    let x = hidden_states(3);
    args.norm_topk_prob = true;
    let on = routed(&args, &x);
    args.norm_topk_prob = false;
    close(&on, &routed(&args, &x));
    args.num_experts_per_tok = Some(2);
    let some = routed(&args, &x);
    args.norm_topk_prob = true;
    assert_ne!(some, routed(&args, &x));
}
