//! Recorded programs on a simulated driver that computes what the kernels compute.

use std::collections::HashMap;

use apxinf_ascend::backend::AscendBackend;
use apxinf_ascend::context::AscendContext;
use apxinf_ascend::device::{
    AclTensor, Command, DeviceBuffer, Entry, HostTask, Layout, Real, Scale, ACL_FLOAT, ACL_FLOAT16,
    ACL_INT32,
};
use apxinf_ascend::driver::action::{Action, Reply};
use apxinf_ascend::driver::runner::Next;
use apxinf_ascend::driver::session::Session;
use apxinf_ascend::encode::{bytes_to_words, f32_to_f16_bytes, word_bytes};
use apxinf_ascend::error::{AclError, Device, Error};
use apxinf_ascend::exchange::OnHost;
use apxinf_ascend::executor::action::{action_layer_ascend, adaptive_rms, euler_mul};
use apxinf_ascend::executor::caches::AscendCaches;
use apxinf_ascend::executor::language::language_layer_ascend;
use apxinf_ascend::executor::linear::matmul;
use apxinf_ascend::executor::rotate::apply_rope_rows;
use apxinf_ascend::executor::vision::{vision_layer_ascend, vision_patch_embed_ascend};
use apxinf_ascend::heap::Place;
use apxinf_ascend::host::{host_nz_reorder, host_transpose};
use apxinf_ascend::model::{
    Bf16DeviceActionLayer, Bf16DeviceLanguageLayer, Bf16DeviceVisionBlock, Bf16LayerNormWeights,
    Bf16LinearWeights, DType, GemmaVariantConfig, Pi05Config, StaticBf16Pi05Weights, Storage,
    Tensor,
};
use apxinf_ascend::ops::attention::{
    prompt_flash_attention_bsh_batch_fp16, prompt_flash_attention_bsh_fp16,
    prompt_flash_attention_cross_bsh_fp16, prompt_flash_attention_fp16,
};
use apxinf_ascend::ops::elementwise::{
    add_fp16, bias_add_fp16, euler_update_fp16, gelu_fp16, mul_fp16, muls_fp16, silu_fp16,
};
use apxinf_ascend::ops::matmul::{
    gemm_b_t_fp16, matmul_b_t_fp16, matmul_fp16, matmul_weight_nz_fp16, mm_b_t_fp16, mm_fp16,
};
use apxinf_ascend::ops::norm::{add_rms_norm_fp16, layer_norm_fp16};
use apxinf_ascend::opening::OpenDevice;
use apxinf_ascend::ops::rows::{
    cat_fp16, gather_rows_fp16, row_replicate_fp16, take_columns_fp16, take_rows_fp16,
};
use apxinf_ascend::rope::{cos_table_bytes, sin_table_bytes};
use apxinf_ascend::runtime::pi05::{AscendPrefixKvCache, Pi05AscendRuntime};
use apxinf_ascend::transfer::upload;
use apxinf_ascend::vla::{
    InitialLatent, Pi05AscendVlaRuntime, VisionObservation, VlaRequest,
};
use half::f16;

/// A descriptor of the simulated driver.
struct Desc {
    at: Place,
    dims: Vec<i64>,
    strides: Vec<i64>,
    dtype: u32,
}

/// A driver that keeps device memory on the host.
struct Sim {
    memory: HashMap<usize, Vec<u8>>,
    descs: HashMap<usize, Desc>,
    lists: HashMap<usize, Vec<usize>>,
    plans: HashMap<usize, (Entry, Vec<usize>, Vec<usize>)>,
    next: usize,
    /// The names of the calls that were made.
    calls: Vec<&'static str>,
    /// Fail the call with this number, counted from zero, with this code.
    fail: Option<(usize, i32)>,
    workspace: usize,
    freed: Vec<usize>,
    in_capture: bool,
}

impl Sim {
    fn new() -> Sim {
        Sim {
            memory: HashMap::new(),
            descs: HashMap::new(),
            lists: HashMap::new(),
            plans: HashMap::new(),
            next: 1,
            calls: Vec::new(),
            fail: None,
            workspace: 64,
            freed: Vec::new(),
            in_capture: false,
        }
    }

    fn handle(&mut self) -> usize {
        self.next += 1;
        self.next
    }

    fn malloc(&mut self, len: usize) -> usize {
        let address = self.handle();
        self.memory.insert(address, vec![0xa5; len]);
        address
    }

    fn bytes(&self, at: Place, len: usize) -> Vec<u8> {
        self.memory[&at.owner][at.offset..at.offset + len].to_vec()
    }

    fn write(&mut self, at: Place, bytes: &[u8]) {
        let block = self.memory.get_mut(&at.owner).expect("live memory");
        block[at.offset..at.offset + bytes.len()].copy_from_slice(bytes);
    }

    fn element(&self, d: &Desc, offset: i64) -> f64 {
        let block = &self.memory[&d.at.owner];
        match d.dtype {
            ACL_FLOAT16 => {
                let p = d.at.offset + 2 * offset as usize;
                f16::from_bits(u16::from_le_bytes([block[p], block[p + 1]])).to_f64()
            }
            ACL_FLOAT => {
                let p = d.at.offset + 4 * offset as usize;
                f32::from_le_bytes([block[p], block[p + 1], block[p + 2], block[p + 3]]) as f64
            }
            ACL_INT32 => {
                let p = d.at.offset + 4 * offset as usize;
                i32::from_le_bytes([block[p], block[p + 1], block[p + 2], block[p + 3]]) as f64
            }
            _ => panic!("element type"),
        }
    }

    fn offsets(dims: &[i64], strides: &[i64]) -> Vec<i64> {
        let mut out = vec![0i64];
        for (n, s) in dims.iter().zip(strides) {
            let mut more = Vec::new();
            for base in &out {
                for i in 0..*n {
                    more.push(base + i * s);
                }
            }
            out = more;
        }
        out
    }

    fn read(&self, id: usize) -> (Vec<i64>, Vec<f64>) {
        let d = &self.descs[&id];
        let values = Self::offsets(&d.dims, &d.strides).iter().map(|&o| self.element(d, o)).collect();
        (d.dims.clone(), values)
    }

    fn put(&mut self, id: usize, values: &[f64]) {
        let d = &self.descs[&id];
        let (at, dtype) = (d.at, d.dtype);
        let offsets = Self::offsets(&d.dims, &d.strides);
        assert_eq!(offsets.len(), values.len());
        for (o, v) in offsets.iter().zip(values) {
            if dtype == ACL_FLOAT16 {
                let bits = f16::from_f64(*v).to_bits().to_le_bytes();
                self.write(Place { owner: at.owner, offset: at.offset + 2 * *o as usize }, &bits);
            } else {
                let bits = (*v as f32).to_le_bytes();
                self.write(Place { owner: at.owner, offset: at.offset + 4 * *o as usize }, &bits);
            }
        }
    }

    fn number(r: Real) -> f64 {
        match r {
            Real::Single(bits) => f32::from_bits(bits) as f64,
            Real::Double(bits) => f64::from_bits(bits),
        }
    }

    fn product(a: &[f64], b: &[f64], m: usize, k: usize, n: usize) -> Vec<f64> {
        let mut out = vec![0.0; m * n];
        for i in 0..m {
            for j in 0..n {
                for l in 0..k {
                    out[i * n + j] += a[i * k + l] * b[l * n + j];
                }
            }
        }
        out
    }

    fn attention(
        q: &[f64],
        k: &[f64],
        v: &[f64],
        tokens: usize,
        kv_tokens: usize,
        heads: usize,
        kv_heads: usize,
        d: usize,
        scale: f64,
    ) -> Vec<f64> {
        let mut out = vec![0.0; tokens * heads * d];
        for h in 0..heads {
            let g = h * kv_heads / heads;
            for t in 0..tokens {
                let scores: Vec<f64> = (0..kv_tokens)
                    .map(|s| {
                        (0..d)
                            .map(|c| q[(t * heads + h) * d + c] * k[(s * kv_heads + g) * d + c])
                            .sum::<f64>()
                            * scale
                    })
                    .collect();
                let top = scores.iter().cloned().fold(f64::NEG_INFINITY, f64::max);
                let weights: Vec<f64> = scores.iter().map(|x| (x - top).exp()).collect();
                let total: f64 = weights.iter().sum();
                for c in 0..d {
                    out[(t * heads + h) * d + c] = (0..kv_tokens)
                        .map(|s| weights[s] / total * v[(s * kv_heads + g) * d + c])
                        .sum();
                }
            }
        }
        out
    }

    fn run_kernel(&mut self, entry: Entry, inputs: &[usize], outputs: &[usize]) {
        let inputs: Vec<usize> = match entry {
            Entry::Cat { .. } => self.lists[&inputs[0]].clone(),
            _ => inputs.to_vec(),
        };
        let given: Vec<(Vec<i64>, Vec<f64>)> = inputs.iter().map(|&i| self.read(i)).collect();
        match entry {
            Entry::Matmul { .. } | Entry::Mm { .. } => {
                let (m, k) = (given[0].0[0] as usize, given[0].0[1] as usize);
                let n = given[1].0[1] as usize;
                assert_eq!(given[1].0[0] as usize, k);
                let out = Self::product(&given[0].1, &given[1].1, m, k, n);
                self.put(outputs[0], &out);
            }
            Entry::MatmulWeightNz { .. } => {
                // the weight is stored in blocks of 16 columns
                let (m, k) = (given[0].0[0] as usize, given[0].0[1] as usize);
                let n = self.descs[&outputs[0]].dims[1] as usize;
                let weight = &self.descs[&inputs[1]];
                let rows = (k + 15) / 16 * 16;
                let mut b = vec![0.0; k * n];
                for r in 0..k {
                    for c in 0..n {
                        let at = (c / 16) * rows * 16 + r * 16 + c % 16;
                        b[r * n + c] = self.element(weight, at as i64);
                    }
                }
                let out = Self::product(&given[0].1, &b, m, k, n);
                self.put(outputs[0], &out);
            }
            Entry::Gemm { alpha, beta, trans_b, .. } => {
                assert_eq!(trans_b, 1);
                let (m, k) = (given[0].0[0] as usize, given[0].0[1] as usize);
                let n = given[1].0[0] as usize;
                let mut b = vec![0.0; k * n];
                for r in 0..n {
                    for c in 0..k {
                        b[c * n + r] = given[1].1[r * k + c];
                    }
                }
                let out: Vec<f64> = Self::product(&given[0].1, &b, m, k, n)
                    .iter()
                    .map(|x| x * f32::from_bits(alpha) as f64)
                    .collect();
                assert_eq!(beta, 0);
                self.put(outputs[0], &out);
            }
            Entry::Add { alpha } => {
                let alpha = f32::from_bits(alpha) as f64;
                let out: Vec<f64> =
                    given[0].1.iter().zip(&given[1].1).map(|(a, b)| a + alpha * b).collect();
                self.put(outputs[0], &out);
            }
            Entry::Mul => {
                let out: Vec<f64> = given[0].1.iter().zip(&given[1].1).map(|(a, b)| a * b).collect();
                self.put(outputs[0], &out);
            }
            Entry::Muls { factor } => {
                let factor = f32::from_bits(factor) as f64;
                let out: Vec<f64> = given[0].1.iter().map(|a| a * factor).collect();
                self.put(outputs[0], &out);
            }
            Entry::Silu => {
                let out: Vec<f64> = given[0].1.iter().map(|a| a / (1.0 + (-a).exp())).collect();
                self.put(outputs[0], &out);
            }
            Entry::GeluV2 { approximate: _ } => {
                let out: Vec<f64> = given[0]
                    .1
                    .iter()
                    .map(|a| 0.5 * a * (1.0 + (0.7978845608 * (a + 0.044715 * a * a * a)).tanh()))
                    .collect();
                self.put(outputs[0], &out);
            }
            Entry::AddRmsNorm { epsilon } => {
                let eps = Self::number(epsilon);
                let (rows, cols) = (given[0].0[0] as usize, given[0].0[1] as usize);
                let sum: Vec<f64> = given[0].1.iter().zip(&given[1].1).map(|(a, b)| a + b).collect();
                let mut out = vec![0.0; rows * cols];
                let mut rstd = vec![0.0; rows];
                for r in 0..rows {
                    let row = &sum[r * cols..(r + 1) * cols];
                    let mean = row.iter().map(|x| x * x).sum::<f64>() / cols as f64;
                    rstd[r] = 1.0 / (mean + eps).sqrt();
                    for c in 0..cols {
                        out[r * cols + c] = row[c] * rstd[r] * given[2].1[c];
                    }
                }
                self.put(outputs[0], &out);
                self.put(outputs[1], &rstd);
                self.put(outputs[2], &sum);
            }
            Entry::AddLayerNorm { epsilon } => {
                let eps = Self::number(epsilon);
                let (rows, cols) = (given[0].0[0] as usize, given[0].0[1] as usize);
                let sum: Vec<f64> = given[0].1.iter().zip(&given[1].1).map(|(a, b)| a + b).collect();
                let mut out = vec![0.0; rows * cols];
                let mut means = vec![0.0; rows];
                let mut rstd = vec![0.0; rows];
                for r in 0..rows {
                    let row = &sum[r * cols..(r + 1) * cols];
                    means[r] = row.iter().sum::<f64>() / cols as f64;
                    let var = row.iter().map(|x| (x - means[r]).powi(2)).sum::<f64>() / cols as f64;
                    rstd[r] = 1.0 / (var + eps).sqrt();
                    for c in 0..cols {
                        out[r * cols + c] =
                            (row[c] - means[r]) * rstd[r] * given[2].1[c] + given[3].1[c];
                    }
                }
                self.put(outputs[0], &out);
                self.put(outputs[1], &means);
                self.put(outputs[2], &rstd);
                self.put(outputs[3], &sum);
            }
            Entry::Cat { dim } => {
                assert_eq!(dim, 0);
                let out: Vec<f64> = given.iter().flat_map(|g| g.1.clone()).collect();
                self.put(outputs[0], &out);
            }
            Entry::GatherV2 { dim } => {
                let (rows, cols) = (given[0].0[0] as usize, given[0].0[1] as usize);
                let index: Vec<usize> = given[1].1.iter().map(|&i| i as usize).collect();
                let mut out = Vec::new();
                if dim == 0 {
                    for &i in &index {
                        assert!(i < rows);
                        out.extend_from_slice(&given[0].1[i * cols..(i + 1) * cols]);
                    }
                } else {
                    for r in 0..rows {
                        for &i in &index {
                            out.push(given[0].1[r * cols + i]);
                        }
                    }
                }
                self.put(outputs[0], &out);
            }
            Entry::PromptFlashAttentionV3 { heads, scale, layout, kv_heads } => {
                let heads = heads as usize;
                let kv_heads = if kv_heads == 0 { heads } else { kv_heads as usize };
                let mut out = Vec::new();
                let scale_of = |d: usize| match scale {
                    Scale::InverseSqrt(n) => {
                        assert_eq!(n as usize, d);
                        1.0 / (d as f64).sqrt()
                    }
                    Scale::Given(bits) => f64::from_bits(bits),
                };
                match layout {
                    Layout::Bsh => {
                        let (b, s) = (given[0].0[0] as usize, given[0].0[1] as usize);
                        let t = given[1].0[1] as usize;
                        let d = given[0].0[2] as usize / heads;
                        for w in 0..b {
                            let q = &given[0].1[w * s * heads * d..(w + 1) * s * heads * d];
                            let k = &given[1].1[w * t * kv_heads * d..(w + 1) * t * kv_heads * d];
                            let v = &given[2].1[w * t * kv_heads * d..(w + 1) * t * kv_heads * d];
                            out.extend(Self::attention(
                                q,
                                k,
                                v,
                                s,
                                t,
                                heads,
                                kv_heads,
                                d,
                                scale_of(d),
                            ));
                        }
                    }
                    Layout::Bnsd => {
                        let (b, n) = (given[0].0[0] as usize, given[0].0[1] as usize);
                        let (s, d) = (given[0].0[2] as usize, given[0].0[3] as usize);
                        for w in 0..b * n {
                            let range = w * s * d..(w + 1) * s * d;
                            out.extend(Self::attention(
                                &given[0].1[range.clone()],
                                &given[1].1[range.clone()],
                                &given[2].1[range],
                                s,
                                s,
                                1,
                                1,
                                d,
                                scale_of(d),
                            ));
                        }
                    }
                }
                self.put(outputs[0], &out);
            }
        }
    }

    fn compute(&self, task: HostTask, session: &Session) -> Vec<u8> {
        match task {
            HostTask::PlusOne { from, words } => {
                let bytes = session
                    .upload_bytes(apxinf_ascend::driver::action::HostBytes::Slot(from))
                    .expect("slot");
                let given = bytes_to_words(bytes);
                let out: Vec<u16> = given[..words]
                    .iter()
                    .map(|w| f16::from_f32(1.0 + f16::from_bits(*w).to_f32()).to_bits())
                    .collect();
                word_bytes(&out)
            }
            HostTask::RopeCos { theta, d, max_pos } => {
                cos_table_bytes(&angles(theta, d, max_pos, f64::cos), d, max_pos)
            }
            HostTask::RopeSin { theta, d, max_pos } => {
                sin_table_bytes(&angles(theta, d, max_pos, f64::sin), d, max_pos)
            }
            _ => panic!("a task that needs no floating point"),
        }
    }

    fn code(&mut self, name: &'static str) -> i32 {
        let number = self.calls.len();
        self.calls.push(name);
        match self.fail {
            Some((at, code)) if at == number => code,
            _ => 0,
        }
    }

    fn perform(&mut self, action: Action, session: &Session) -> Reply {
        match action {
            Action::Malloc { len } => {
                assert!(!self.in_capture, "allocation inside a capture");
                let code = self.code("malloc");
                let address = if code == 0 { self.malloc(len) } else { 0 };
                Reply::Address { code, address }
            }
            Action::Memset { at, len, value } => {
                let code = self.code("memset");
                self.write(at, &vec![value; len]);
                Reply::Code(code)
            }
            Action::CopyAsync { dst, src, len } => {
                let code = self.code("copy");
                let bytes = self.bytes(src, len);
                self.write(dst, &bytes);
                Reply::Code(code)
            }
            Action::CopyIn { dst, len, from } => {
                assert!(!self.in_capture, "upload inside a capture");
                let code = self.code("h2d");
                let bytes = session.upload_bytes(from).expect("bytes").clone();
                assert_eq!(bytes.len(), len);
                self.write(dst, &bytes);
                Reply::Code(code)
            }
            Action::CopyOut { src, len } => {
                assert!(!self.in_capture, "readback inside a capture");
                let code = self.code("d2h");
                Reply::Bytes { code, bytes: self.bytes(src, len) }
            }
            Action::Compute { task } => {
                self.calls.push("compute");
                Reply::Bytes { code: 0, bytes: self.compute(task, session) }
            }
            Action::Synchronize => {
                assert!(!self.in_capture, "wait inside a capture");
                Reply::Code(self.code("sync"))
            }
            Action::Free { addresses } => {
                for a in addresses {
                    assert!(self.memory.remove(&a).is_some(), "freed twice");
                    self.freed.push(a);
                }
                Reply::Code(0)
            }
            Action::CreateTensor { at } => {
                let failed = self.code("create") != 0;
                let tensor: &AclTensor = match session.command() {
                    Some(Command::Describe { id: _, tensor }) => tensor,
                    _ => panic!("no descriptor to create"),
                };
                if failed {
                    return Reply::Handle(0);
                }
                let desc = Desc {
                    at,
                    dims: tensor.dims.clone(),
                    strides: tensor.strides.clone(),
                    dtype: tensor.dtype,
                };
                let handle = self.handle();
                self.descs.insert(handle, desc);
                Reply::Handle(handle)
            }
            Action::DestroyTensor { handle } => {
                assert!(self.descs.remove(&handle).is_some());
                Reply::Code(0)
            }
            Action::CreateTensorList { handles } => {
                if self.code("list") != 0 {
                    return Reply::Handle(0);
                }
                let list = self.handle();
                self.lists.insert(list, handles);
                Reply::Handle(list)
            }
            Action::DestroyTensorList { list } => {
                for h in self.lists.remove(&list).expect("list") {
                    assert!(self.descs.remove(&h).is_some());
                }
                Reply::Code(0)
            }
            Action::Plan { entry, inputs, outputs } => {
                let code = self.code("plan");
                let executor = self.handle();
                self.plans.insert(executor, (entry, inputs, outputs));
                Reply::Plan { code, workspace: self.workspace, executor }
            }
            Action::Run { entry, workspace, size, executor } => {
                let code = self.code("run");
                let (planned, inputs, outputs) = self.plans.remove(&executor).expect("plan");
                assert_eq!(planned, entry);
                assert_eq!(size, self.workspace);
                if let Some(at) = workspace {
                    self.write(at, &vec![0xee; size]);
                }
                if code == 0 {
                    self.run_kernel(entry, &inputs, &outputs);
                }
                Reply::Code(code)
            }
        }
    }
}

/// Values of a function at the rotation angles, as single-precision patterns.
fn angles(theta: u32, d: i64, max_pos: usize, f: fn(f64) -> f64) -> Vec<u32> {
    let theta = f32::from_bits(theta) as f64;
    let half = (d / 2) as usize;
    let mut out = Vec::new();
    for p in 0..max_pos {
        for i in 0..half {
            let angle = p as f64 / theta.powf(2.0 * i as f64 / d as f64);
            out.push((f(angle) as f32).to_bits());
        }
    }
    out
}

/// Run what a context has recorded.
fn run(ctx: &mut AscendContext, session: &mut Session, sim: &mut Sim) -> Result<(), AclError> {
    session.load(ctx);
    let mut next = session.advance();
    loop {
        match next {
            Next::Done => return Ok(()),
            Next::Failed(e) => return Err(e),
            Next::Do(action) => {
                let reply = sim.perform(action, session);
                next = session.answer(reply);
            }
        }
    }
}

fn bits(values: &[f32]) -> Vec<u32> {
    values.iter().map(|v| v.to_bits()).collect()
}

fn halves(values: &[f32]) -> Vec<u16> {
    values.iter().map(|v| f16::from_f32(*v).to_bits()).collect()
}

/// Upload values in half precision.
fn send(ctx: &mut AscendContext, values: &[f32]) -> DeviceBuffer {
    upload(ctx, f32_to_f16_bytes(&bits(values)))
}

/// What a buffer holds after a run.
fn fetch(session: &Session, sim: &Sim, b: &DeviceBuffer) -> Vec<f32> {
    let at = session.locate(b).expect("live buffer");
    bytes_to_words(&sim.bytes(at, b.len)).iter().map(|w| f16::from_bits(*w).to_f32()).collect()
}

/// Small pseudo-random values, the same for the same seed.
fn values(n: usize, seed: u32) -> Vec<f32> {
    let mut x = seed.wrapping_mul(2654435761).wrapping_add(12345);
    (0..n)
        .map(|_| {
            x = x.wrapping_mul(1664525).wrapping_add(1013904223);
            ((x >> 16) & 0xff) as f32 / 256.0 - 0.5
        })
        .collect()
}

fn close(got: &[f32], want: &[f32], tolerance: f32) {
    assert_eq!(got.len(), want.len());
    for (i, (a, b)) in got.iter().zip(want).enumerate() {
        assert!((a - b).abs() <= tolerance, "element {}: {} is not {}", i, a, b);
    }
}

fn product(a: &[f32], b: &[f32], m: usize, k: usize, n: usize) -> Vec<f32> {
    let mut out = vec![0.0f32; m * n];
    for i in 0..m {
        for j in 0..n {
            for l in 0..k {
                out[i * n + j] += a[i * k + l] * b[l * n + j];
            }
        }
    }
    out
}

#[test]
fn product_of_unaligned_rows_is_padded_and_cut() {
    let mut ctx = AscendContext::new(0);
    let (mut session, mut sim) = (Session::new(), Sim::new());
    let (m, k, n) = (3usize, 5usize, 4usize);
    let (a, b) = (values(m * k, 1), values(k * n, 2));
    let x = send(&mut ctx, &a);
    let y = send(&mut ctx, &b);
    let out = matmul_fp16(&mut ctx, &x, [m as i64, k as i64], &y, [k as i64, n as i64]);
    run(&mut ctx, &mut session, &mut sim).expect("runs");
    assert_eq!(out.len, m * n * 2);
    close(&fetch(&session, &sim, &out), &product(&a, &b, m, k, n), 0.01);
    assert!(sim.calls.contains(&"memset"));
}

#[test]
fn product_of_aligned_rows_needs_no_padding() {
    let mut ctx = AscendContext::new(0);
    let (mut session, mut sim) = (Session::new(), Sim::new());
    let (a, b) = (values(16 * 2, 3), values(2 * 3, 4));
    let x = send(&mut ctx, &a);
    let y = send(&mut ctx, &b);
    let out = matmul_fp16(&mut ctx, &x, [16, 2], &y, [2, 3]);
    run(&mut ctx, &mut session, &mut sim).expect("runs");
    close(&fetch(&session, &sim, &out), &product(&a, &b, 16, 2, 3), 0.01);
    assert!(!sim.calls.contains(&"memset"));
}

#[test]
fn products_with_a_transposed_operand_agree() {
    let mut ctx = AscendContext::new(0);
    let (mut session, mut sim) = (Session::new(), Sim::new());
    let (m, k, n) = (5usize, 6usize, 3usize);
    let (a, b) = (values(m * k, 5), values(k * n, 6));
    let turned = host_transpose(&f32_to_f16_bytes(&bits(&b)), k as i64, n as i64);
    let x = send(&mut ctx, &a);
    let y = upload(&mut ctx, turned);
    let ash = [m as i64, k as i64];
    let one = matmul_b_t_fp16(&mut ctx, &x, ash, &y, k as i64, n as i64);
    let two = mm_b_t_fp16(&mut ctx, &x, ash, &y, k as i64, n as i64);
    let three = gemm_b_t_fp16(&mut ctx, &x, ash, &y, k as i64, n as i64);
    let plain = send(&mut ctx, &b);
    let four = matmul_fp16(&mut ctx, &x, ash, &plain, [k as i64, n as i64]);
    run(&mut ctx, &mut session, &mut sim).expect("runs");
    let want = product(&a, &b, m, k, n);
    close(&fetch(&session, &sim, &one), &want, 0.01);
    close(&fetch(&session, &sim, &two), &want, 0.01);
    close(&fetch(&session, &sim, &three), &want, 0.01);
    assert_eq!(fetch(&session, &sim, &one), fetch(&session, &sim, &four));
    assert_eq!(fetch(&session, &sim, &one).len(), m * n);
}

#[test]
fn products_with_other_entries_agree() {
    let mut ctx = AscendContext::new(0);
    let (mut session, mut sim) = (Session::new(), Sim::new());
    let (m, k, n) = (16usize, 16usize, 16usize);
    let (a, b) = (values(m * k, 7), values(k * n, 8));
    let x = send(&mut ctx, &a);
    let y = send(&mut ctx, &b);
    let one = mm_fp16(&mut ctx, &x, [16, 16], &y, [16, 16]);
    let (bytes, dims, strides) = host_nz_reorder(&f32_to_f16_bytes(&bits(&b)), 16, 16);
    let z = upload(&mut ctx, bytes);
    let two = matmul_weight_nz_fp16(&mut ctx, &x, [16, 16], &z, &dims, &strides, 16);
    run(&mut ctx, &mut session, &mut sim).expect("runs");
    let want = product(&a, &b, m, k, n);
    close(&fetch(&session, &sim, &one), &want, 0.02);
    close(&fetch(&session, &sim, &two), &want, 0.02);
}

#[test]
fn elementwise_operations() {
    let mut ctx = AscendContext::new(0);
    let (mut session, mut sim) = (Session::new(), Sim::new());
    let (a, b) = (values(6, 9), values(6, 10));
    let x = send(&mut ctx, &a);
    let y = send(&mut ctx, &b);
    let row = send(&mut ctx, &[1.0, 2.0, 3.0]);
    let sum = add_fp16(&mut ctx, &x, &y, &[2, 3]);
    let scaled = muls_fp16(&mut ctx, &x, 2.0f32.to_bits(), &[2, 3]);
    let multiplied = mul_fp16(&mut ctx, &x, &y, &[6]);
    let gated = silu_fp16(&mut ctx, &x, &[6]);
    let smooth = gelu_fp16(&mut ctx, &x, &[6], true);
    let biased = bias_add_fp16(&mut ctx, &x, &row, 2, 3);
    let moved = euler_mul(&mut ctx, &x, &y, (-0.5f32).to_bits(), 2, 3);
    let mixed = euler_update_fp16(&mut ctx, &x, &y, 0.25f32.to_bits(), &[6]);
    run(&mut ctx, &mut session, &mut sim).expect("runs");
    let pair = |f: fn(f32, f32) -> f32| -> Vec<f32> {
        a.iter().zip(&b).map(|(p, q)| f(*p, *q)).collect()
    };
    close(&fetch(&session, &sim, &sum), &pair(|p, q| p + q), 0.001);
    close(&fetch(&session, &sim, &scaled), &pair(|p, _| 2.0 * p), 0.001);
    close(&fetch(&session, &sim, &multiplied), &pair(|p, q| p * q), 0.001);
    close(&fetch(&session, &sim, &gated), &pair(|p, _| p / (1.0 + (-p).exp())), 0.001);
    close(&fetch(&session, &sim, &moved), &pair(|p, q| p - 0.5 * q), 0.001);
    assert_eq!(fetch(&session, &sim, &smooth).len(), 6);
    assert_eq!(fetch(&session, &sim, &mixed).len(), 6);
    let want: Vec<f32> = (0..6).map(|i| a[i] + [1.0, 2.0, 3.0][i % 3]).collect();
    close(&fetch(&session, &sim, &biased), &want, 0.002);
}

#[test]
fn euler_update_moves_toward_the_second_operand() {
    let mut ctx = AscendContext::new(0);
    let (mut session, mut sim) = (Session::new(), Sim::new());
    let x = send(&mut ctx, &[1.0, 2.0]);
    let y = send(&mut ctx, &[4.0, 8.0]);
    let out = euler_update_fp16(&mut ctx, &x, &y, 0.25f32.to_bits(), &[2]);
    run(&mut ctx, &mut session, &mut sim).expect("runs");
    close(&fetch(&session, &sim, &out), &[1.75, 3.5], 0.0);
}

#[test]
fn norms_of_rows() {
    let mut ctx = AscendContext::new(0);
    let (mut session, mut sim) = (Session::new(), Sim::new());
    let x = send(&mut ctx, &[3.0, 4.0, 6.0, 8.0]);
    let zeros = send(&mut ctx, &[0.0; 4]);
    let gamma = send(&mut ctx, &[1.0, 2.0]);
    let beta = send(&mut ctx, &[0.5, 0.25]);
    let (y, rstd) = add_rms_norm_fp16(&mut ctx, &x, &zeros, &gamma, [2, 2], Real::Double(0));
    let z = layer_norm_fp16(&mut ctx, &x, &zeros, &gamma, &beta, 2, 2, Real::Double(0));
    run(&mut ctx, &mut session, &mut sim).expect("runs");
    let r = (12.5f32).sqrt();
    close(&fetch(&session, &sim, &y), &[3.0 / r, 8.0 / r, 3.0 / r, 8.0 / r], 0.002);
    assert_eq!(rstd.len, 8);
    close(&fetch(&session, &sim, &z), &[-0.5, 2.25, -0.5, 2.25], 0.002);
}

#[test]
fn rows_are_gathered_cut_joined_and_replicated() {
    let mut ctx = AscendContext::new(0);
    let (mut session, mut sim) = (Session::new(), Sim::new());
    let table = send(&mut ctx, &[0.0, 1.0, 10.0, 11.0, 20.0, 21.0]);
    let index = upload(&mut ctx, vec![2, 0, 0, 0, 0, 0, 0, 0]);
    let picked = gather_rows_fp16(&mut ctx, &table, 3, 2, &index, 2);
    let cut = take_rows_fp16(&mut ctx, &table, 1, 2, 2);
    let joined = cat_fp16(
        &mut ctx,
        &vec![picked, cut],
        &vec![vec![2, 2], vec![2, 2]],
        0,
        &[4, 2],
    );
    let row = send(&mut ctx, &[7.0, 8.0]);
    let many = row_replicate_fp16(&mut ctx, &row, 3, 2);
    run(&mut ctx, &mut session, &mut sim).expect("runs");
    assert_eq!(fetch(&session, &sim, &picked), [20.0, 21.0, 0.0, 1.0]);
    assert_eq!(fetch(&session, &sim, &cut), [10.0, 11.0, 20.0, 21.0]);
    assert_eq!(fetch(&session, &sim, &joined), [20.0, 21.0, 0.0, 1.0, 10.0, 11.0, 20.0, 21.0]);
    assert_eq!(fetch(&session, &sim, &many), [7.0, 8.0, 7.0, 8.0, 7.0, 8.0]);
    assert!(sim.descs.is_empty() && sim.lists.is_empty());
}

#[test]
fn attention_over_one_key_is_its_value() {
    let mut ctx = AscendContext::new(0);
    let (mut session, mut sim) = (Session::new(), Sim::new());
    let q = send(&mut ctx, &[1.0, -1.0, 0.5, 2.0]);
    let k = send(&mut ctx, &[3.0, 1.0]);
    let v = send(&mut ctx, &[5.0, 6.0]);
    let out = prompt_flash_attention_cross_bsh_fp16(&mut ctx, &q, &k, &v, 2, 1, 1, 1, 2, None);
    run(&mut ctx, &mut session, &mut sim).expect("runs");
    assert_eq!(fetch(&session, &sim, &out), [5.0, 6.0, 5.0, 6.0]);
}

#[test]
fn attention_layouts_agree_for_one_head() {
    let mut ctx = AscendContext::new(0);
    let (mut session, mut sim) = (Session::new(), Sim::new());
    let q = send(&mut ctx, &values(6, 11));
    let k = send(&mut ctx, &values(6, 12));
    let v = send(&mut ctx, &values(6, 13));
    let a = prompt_flash_attention_fp16(&mut ctx, &q, &k, &v, [1, 1, 3, 2], None);
    let b = prompt_flash_attention_bsh_fp16(&mut ctx, &q, &k, &v, 3, 1, 1, 2, None);
    let c = prompt_flash_attention_bsh_batch_fp16(&mut ctx, &q, &k, &v, 1, 3, 1, 1, 2, None);
    run(&mut ctx, &mut session, &mut sim).expect("runs");
    assert_eq!(fetch(&session, &sim, &a), fetch(&session, &sim, &b));
    assert_eq!(fetch(&session, &sim, &a), fetch(&session, &sim, &c));
}

#[test]
fn rotation_of_rows() {
    let mut ctx = AscendContext::new(0);
    let (mut session, mut sim) = (Session::new(), Sim::new());
    let mut caches = AscendCaches::new();
    let given = [1.0f32, 0.0, 0.0, 2.0, 1.0, 0.0, 0.0, 2.0];
    let x = send(&mut ctx, &given);
    let theta = 100.0f32.to_bits();
    let out = apply_rope_rows(&mut ctx, &mut caches, &x, 2, 1, theta, 3);
    run(&mut ctx, &mut session, &mut sim).expect("runs");
    let mut want = Vec::new();
    for t in 0..2 {
        let (p, q) = ((3 + t) as f32, (3 + t) as f32 / 10.0);
        let row = &given[4 * t..4 * t + 4];
        want.push(row[0] * p.cos() - row[2] * p.sin());
        want.push(row[1] * q.cos() - row[3] * q.sin());
        want.push(row[2] * p.cos() + row[0] * p.sin());
        want.push(row[3] * q.cos() + row[1] * q.sin());
    }
    close(&fetch(&session, &sim, &out), &want, 0.01);
}

#[test]
fn a_weight_is_transposed_once() {
    let mut ctx = AscendContext::new(0);
    let (mut session, mut sim) = (Session::new(), Sim::new());
    let mut caches = AscendCaches::new();
    let (a, b) = (values(2 * 3, 14), values(3 * 4, 15));
    let x = send(&mut ctx, &a);
    let w = send(&mut ctx, &b);
    ctx.synchronize();
    run(&mut ctx, &mut session, &mut sim).expect("runs");
    let first = matmul(&mut ctx, &mut caches, &x, [2, 3], &w, [3, 4]);
    run(&mut ctx, &mut session, &mut sim).expect("runs");
    let before = sim.calls.len();
    let second = matmul(&mut ctx, &mut caches, &x, [2, 3], &w, [3, 4]);
    run(&mut ctx, &mut session, &mut sim).expect("runs");
    let want = product(&a, &b, 2, 3, 4);
    close(&fetch(&session, &sim, &first), &want, 0.01);
    close(&fetch(&session, &sim, &second), &want, 0.01);
    for name in ["h2d", "d2h", "sync", "compute"] {
        assert!(!sim.calls[before..].contains(&name), "{} on the second use", name);
    }
}

#[test]
fn adaptive_norm_scales_and_shifts() {
    let mut be = AscendBackend::new(0);
    let (mut session, mut sim) = (Session::new(), Sim::new());
    let mut caches = AscendCaches::new();
    let x = send(&mut be.ctx, &[3.0, 4.0]);
    let style = send(&mut be.ctx, &[1.0, 0.0, 0.5, 0.25, 9.0, 9.0]);
    let out = adaptive_rms(&mut be, &mut caches, &x, &style, 1, 2, 0);
    run(&mut be.ctx, &mut session, &mut sim).expect("runs");
    let r = (12.5f32).sqrt();
    close(&fetch(&session, &sim, &out), &[3.0 / r * 2.0 + 0.5, 4.0 / r + 0.25], 0.005);
}

#[test]
fn a_failing_call_is_reported_under_its_name() {
    let expected = [
        ("malloc", "aclrtMalloc"),
        ("h2d", "aclrtMemcpy h2d"),
        ("create", "aclCreateTensor"),
        ("plan", "aclnnSilu"),
        ("run", "aclnnSilu"),
    ];
    for (name, op) in expected {
        let record = |ctx: &mut AscendContext| {
            let x = send(ctx, &[1.0, 2.0]);
            let _ = silu_fp16(ctx, &x, &[2]);
            ctx.synchronize();
        };
        let mut ctx = AscendContext::new(0);
        let (mut session, mut sim) = (Session::new(), Sim::new());
        record(&mut ctx);
        run(&mut ctx, &mut session, &mut sim).expect("runs");
        let at = sim.calls.iter().position(|c| *c == name).expect("called");
        let mut ctx = AscendContext::new(0);
        let (mut session, mut sim) = (Session::new(), Sim::new());
        sim.fail = Some((at, 507015));
        record(&mut ctx);
        let e = run(&mut ctx, &mut session, &mut sim).expect_err("fails");
        let code = if name == "create" { -1 } else { 507015 };
        assert_eq!((e.code, e.op), (code, op), "{}", name);
        assert_eq!(sim.calls.len(), at + 1, "nothing is asked after the failure");
    }
}

#[test]
fn a_failing_wait_is_reported_under_its_name() {
    let mut ctx = AscendContext::new(0);
    let (mut session, mut sim) = (Session::new(), Sim::new());
    sim.fail = Some((0, 7));
    ctx.synchronize();
    let e = run(&mut ctx, &mut session, &mut sim).expect_err("fails");
    assert_eq!((e.code, e.op), (7, "aclrtSynchronizeStream"));
    match session.report(e) {
        Error::Other(text) => assert_eq!(text, "aclnn: aclError 7 at aclrtSynchronizeStream"),
        _ => panic!("another error"),
    }
}

#[test]
fn a_failing_list_is_reported_under_its_name() {
    let mut ctx = AscendContext::new(0);
    let (mut session, mut sim) = (Session::new(), Sim::new());
    let x = send(&mut ctx, &[1.0]);
    run(&mut ctx, &mut session, &mut sim).expect("runs");
    let _ = cat_fp16(&mut ctx, &vec![x], &vec![vec![1]], 0, &[1]);
    // an allocation and two descriptors come first
    sim.fail = Some((sim.calls.len() + 3, 5));
    let e = run(&mut ctx, &mut session, &mut sim).expect_err("fails");
    assert_eq!((e.code, e.op), (-1, "aclCreateTensorList"));
}

#[test]
fn a_failing_position_lookup_is_reported_by_its_own_text() {
    let record = |ctx: &mut AscendContext| {
        let mut caches = AscendCaches::new();
        let x = send(ctx, &[1.0, 2.0]);
        let _ = apply_rope_rows(ctx, &mut caches, &x, 1, 1, 100.0f32.to_bits(), 0);
    };
    for (name, text) in [("plan", "rope pos-gather plan 9"), ("run", "rope pos-gather run 9")] {
        let mut ctx = AscendContext::new(0);
        let (mut session, mut sim) = (Session::new(), Sim::new());
        record(&mut ctx);
        run(&mut ctx, &mut session, &mut sim).expect("runs");
        let at = sim.calls.iter().position(|c| *c == name).expect("called");
        let mut ctx = AscendContext::new(0);
        let (mut session, mut sim) = (Session::new(), Sim::new());
        sim.fail = Some((at, 9));
        record(&mut ctx);
        let e = run(&mut ctx, &mut session, &mut sim).expect_err("fails");
        match session.report(e) {
            Error::Other(got) => assert_eq!(got, text),
            _ => panic!("another error"),
        }
    }
}

#[test]
fn memory_is_freed_only_after_a_wait() {
    let mut ctx = AscendContext::new(0);
    let (mut session, mut sim) = (Session::new(), Sim::new());
    let x = send(&mut ctx, &[1.0, 2.0]);
    ctx.release(x);
    run(&mut ctx, &mut session, &mut sim).expect("runs");
    assert!(sim.freed.is_empty());
    ctx.synchronize();
    run(&mut ctx, &mut session, &mut sim).expect("runs");
    assert_eq!(sim.freed.len(), 1);
    assert!(sim.memory.is_empty());
    assert!(session.flush_pending_frees().is_empty());
}

#[test]
fn parked_memory_can_be_flushed_by_hand() {
    let mut ctx = AscendContext::new(0);
    let (mut session, mut sim) = (Session::new(), Sim::new());
    let x = send(&mut ctx, &[1.0, 2.0]);
    ctx.release(x);
    run(&mut ctx, &mut session, &mut sim).expect("runs");
    assert_eq!(session.flush_pending_frees().len(), 1);
    assert!(session.flush_pending_frees().is_empty());
}

#[test]
fn scratch_buffers_of_one_size_are_shared() {
    let mut ctx = AscendContext::new(0);
    let (mut session, mut sim) = (Session::new(), Sim::new());
    let a = ctx.scratch_buf(64);
    let b = ctx.scratch_buf(64);
    let c = ctx.scratch_buf(32);
    run(&mut ctx, &mut session, &mut sim).expect("runs");
    assert_eq!(a, b);
    assert_ne!(a, c);
    assert_eq!(sim.memory.len(), 2);
}

#[test]
fn a_view_shares_the_memory_of_its_backing() {
    let mut ctx = AscendContext::new(0);
    let (mut session, mut sim) = (Session::new(), Sim::new());
    let x = send(&mut ctx, &[1.0, 2.0, 3.0, 4.0]);
    let view = DeviceBuffer::view_of(&x, 2, 4);
    run(&mut ctx, &mut session, &mut sim).expect("runs");
    assert_eq!(fetch(&session, &sim, &view), [2.0, 3.0]);
    assert_eq!((view.len(), view.is_empty()), (4, false));
    assert_eq!(view.as_ptr().offset, 2);
    let past = DeviceBuffer { base: x.base, offset: 6, len: 4 };
    assert!(session.locate(&past).is_none());
}

fn tensor(be: &mut AscendBackend, dims: &[usize], values: &[f32]) -> Tensor {
    let host = Tensor {
        dims: dims.to_vec(),
        dtype: DType::F32,
        device: Device::Cpu,
        storage: Storage::Cpu,
    };
    assert_eq!(dims.iter().product::<usize>(), values.len());
    be.to_device(&host, Ok(halves(values))).expect("uploads")
}

fn linear(be: &mut AscendBackend, rows: usize, cols: usize, seed: u32, bias: bool) -> Bf16LinearWeights {
    let weight = tensor(be, &[rows, cols], &values(rows * cols, seed));
    let bias = if bias { Some(tensor(be, &[cols], &values(cols, seed + 1000))) } else { None };
    Bf16LinearWeights { weight, bias, bf16_dual_geglu_interleaved: false }
}

fn config() -> Pi05Config {
    let language = GemmaVariantConfig {
        width: 8,
        depth: 2,
        mlp_dim: 6,
        num_heads: 2,
        num_kv_heads: 1,
        head_dim: 4,
    };
    let action_expert = GemmaVariantConfig { width: 6, mlp_dim: 4, ..language };
    Pi05Config {
        vision_depth: 1,
        vision_width: 8,
        vision_heads: 2,
        vision_head_dim: 4,
        language,
        action_expert,
        num_views: 2,
        image_size: 4,
        patch_size: 2,
        action_horizon: 3,
        action_dim: 5,
        max_token_len: 4,
        num_flow_steps: 2,
        layer_norm_eps: 1e-6f32.to_bits(),
        rms_norm_eps: 1e-6f32.to_bits(),
        rope_theta: 10000.0f32.to_bits(),
    }
}

fn weights(be: &mut AscendBackend, c: &Pi05Config) -> StaticBf16Pi05Weights {
    let patch = 3 * c.patch_size * c.patch_size;
    let vw = c.vision_width;
    let lw = c.language.width;
    let aw = c.action_expert.width;
    let norm = |be: &mut AscendBackend, n: usize, seed: u32| Bf16LayerNormWeights {
        weight: tensor(be, &[n], &values(n, seed)),
        bias: tensor(be, &[n], &values(n, seed + 1)),
    };
    let fused = (c.language.num_heads + 2 * c.language.num_kv_heads) * c.language.head_dim;
    let qd = c.language.num_heads * c.language.head_dim;
    let vision_layers = (0..c.vision_depth as u32)
        .map(|i| Bf16DeviceVisionBlock {
            norm1: norm(be, vw, 100 + i),
            qkv: linear(be, vw, 3 * vw, 110 + i, true),
            output: linear(be, vw, vw, 120 + i, true),
            norm2: norm(be, vw, 130 + i),
            fc1: linear(be, vw, 10, 140 + i, true),
            fc2: linear(be, 10, vw, 150 + i, true),
        })
        .collect();
    let language_layers = (0..c.language.depth as u32)
        .map(|i| Bf16DeviceLanguageLayer {
            input_norm_scale: tensor(be, &[lw], &values(lw, 200 + i)),
            qkv: linear(be, lw, fused, 210 + i, false),
            output: linear(be, qd, lw, 220 + i, false),
            post_attention_norm_scale: tensor(be, &[lw], &values(lw, 230 + i)),
            gate_up: linear(be, lw, 2 * c.language.mlp_dim, 240 + i, false),
            down: linear(be, c.language.mlp_dim, lw, 250 + i, false),
        })
        .collect();
    let action_layers = (0..c.action_expert.depth as u32)
        .map(|i| Bf16DeviceActionLayer {
            input_style: linear(be, aw, 3 * aw, 300 + i, true),
            qkv: linear(be, aw, fused, 310 + i, false),
            output: linear(be, qd, aw, 320 + i, false),
            post_attention_style: linear(be, aw, 3 * aw, 330 + i, true),
            gate_up: linear(be, aw, 2 * c.action_expert.mlp_dim, 340 + i, false),
            down: linear(be, c.action_expert.mlp_dim, aw, 350 + i, false),
        })
        .collect();
    let per_view = (c.image_size / c.patch_size) * (c.image_size / c.patch_size);
    StaticBf16Pi05Weights {
        patch_embedding: linear(be, patch, vw, 1, true),
        position_embedding: tensor(be, &[per_view, vw], &values(per_view * vw, 2)),
        vision_layers,
        vision_post_norm: norm(be, vw, 3),
        multimodal_projector: linear(be, vw, lw, 5, true),
        token_embedding: tensor(be, &[7, lw], &values(7 * lw, 6)),
        language_layers,
        action_layers,
        action_final_style: linear(be, aw, 3 * aw, 7, true),
        action_in: linear(be, c.action_dim, aw, 8, true),
        action_out: linear(be, aw, c.action_dim, 9, true),
        time_mlp_in: linear(be, aw, aw, 10, true),
        time_mlp_out: linear(be, aw, aw, 11, true),
    }
}

fn model() -> (Pi05AscendRuntime, Session, Sim) {
    let c = config();
    let mut be = AscendBackend::new(0);
    let w = weights(&mut be, &c);
    let (mut session, mut sim) = (Session::new(), Sim::new());
    be.synchronize();
    run(&mut be.ctx, &mut session, &mut sim).expect("uploads");
    let rt = Pi05AscendRuntime::new(be, c, w, Ok(())).expect("a model");
    (rt, session, sim)
}

fn device_values(session: &Session, sim: &Sim, t: &Tensor) -> Vec<f32> {
    match t.storage {
        Storage::Gpu { device: _, buffer: Some(b) } => fetch(session, sim, &b),
        _ => panic!("not on the device"),
    }
}

/// Release the memory of a tensor.
fn discard(rt: &mut Pi05AscendRuntime, t: Tensor) {
    if let Storage::Gpu { device: _, buffer: Some(b) } = t.storage {
        rt.backend.ctx.release(b);
    }
}

#[test]
fn the_whole_model_makes_an_action() {
    let (mut rt, mut session, mut sim) = model();
    let live = sim.memory.len();
    let patches = tensor(&mut rt.backend, &[8, 12], &values(96, 20));
    let noise = tensor(&mut rt.backend, &[3, 5], &values(15, 21));
    let t0 = tensor(&mut rt.backend, &[1, 6], &values(6, 22));
    let t1 = tensor(&mut rt.backend, &[1, 6], &values(6, 23));
    let times = vec![t0, t1];
    let dt = (-0.5f32).to_bits();
    let action = rt.infer(&patches, &[1, 4, 2], &noise, &times, dt).expect("an action");
    assert_eq!(action.dims, [3, 5]);
    run(&mut rt.backend.ctx, &mut session, &mut sim).expect("runs");
    let first = device_values(&session, &sim, &action);
    assert!(first.iter().all(|x| x.is_finite()));
    assert_ne!(first, values(15, 21));

    // asked again, the model says the same
    let again = rt.infer(&patches, &[1, 4, 2], &noise, &times, dt).expect("an action");
    run(&mut rt.backend.ctx, &mut session, &mut sim).expect("runs");
    assert_eq!(device_values(&session, &sim, &again), first);

    // in two parts too
    let styles = rt.prepare_all_styles(&times).expect("styles");
    assert_eq!(styles.len(), 2);
    let prepared = rt.infer_with_styles(&patches, &[1, 4, 2], &noise, &styles, dt).expect("an action");
    run(&mut rt.backend.ctx, &mut session, &mut sim).expect("runs");
    assert_eq!(device_values(&session, &sim, &prepared), first);

    // other tokens, other action
    let other = rt.infer(&patches, &[5, 4, 2], &noise, &times, dt).expect("an action");
    run(&mut rt.backend.ctx, &mut session, &mut sim).expect("runs");
    assert_ne!(device_values(&session, &sim, &other), first);

    // everything but what is cached and what was asked for is given back
    for s in styles {
        for t in s.attention.into_iter().chain(s.mlp) {
            discard(&mut rt, t);
        }
        discard(&mut rt, s.final_norm);
    }
    for t in [action, again, prepared, other, patches, noise] {
        discard(&mut rt, t);
    }
    for t in times {
        discard(&mut rt, t);
    }
    rt.backend.synchronize();
    run(&mut rt.backend.ctx, &mut session, &mut sim).expect("runs");
    let kept = sim.memory.len();
    let patches = tensor(&mut rt.backend, &[8, 12], &values(96, 20));
    let vision = rt.encode_vision(&patches).expect("vision tokens");
    discard(&mut rt, vision);
    discard(&mut rt, patches);
    rt.backend.synchronize();
    run(&mut rt.backend.ctx, &mut session, &mut sim).expect("runs");
    assert_eq!(sim.memory.len(), kept, "a warm call leaves nothing behind");
    assert!(kept > live);
}

#[test]
fn steps_one_by_one_are_the_flow() {
    let (mut rt, mut session, mut sim) = model();
    let patches = tensor(&mut rt.backend, &[8, 12], &values(96, 30));
    let noise = tensor(&mut rt.backend, &[3, 5], &values(15, 31));
    let t0 = tensor(&mut rt.backend, &[1, 6], &values(6, 32));
    let t1 = tensor(&mut rt.backend, &[1, 6], &values(6, 33));
    let times = vec![t0, t1];
    let dt = (-0.5f32).to_bits();
    let vision = rt.encode_vision(&patches).expect("vision tokens");
    assert_eq!(vision.dims, [8, 8]);
    let prefix = rt.embed_prefix(&vision, &[3, 5]).expect("a prefix");
    assert_eq!(prefix.dims, [10, 8]);
    let kv: AscendPrefixKvCache = rt.prefix_forward(&prefix).expect("keys and values");
    assert_eq!((kv.tokens, kv.keys.len(), kv.values.len()), (10, 2, 2));
    let all = rt.denoise_all_steps(&noise, &times, &kv, dt).expect("a flow");
    let one = rt.denoise_step(&noise, &times[0], &kv, dt).expect("a step");
    let two = rt.denoise_step(&one, &times[1], &kv, dt).expect("a step");
    let styles = rt.prepare_all_styles(&times).expect("styles");
    let styled = rt.denoise_all_steps_with_styles(&noise, &styles, &kv, dt).expect("a flow");
    let s0 = rt.prepare_step_styles(&times[0]).expect("styles");
    let step = rt.denoise_step_with_styles(&noise, &s0, &kv, dt).expect("a step");
    let whole = rt.infer(&patches, &[3, 5], &noise, &times, dt).expect("an action");
    run(&mut rt.backend.ctx, &mut session, &mut sim).expect("runs");
    let want = device_values(&session, &sim, &all);
    assert_eq!(device_values(&session, &sim, &two), want);
    assert_eq!(device_values(&session, &sim, &styled), want);
    assert_eq!(device_values(&session, &sim, &whole), want);
    assert_eq!(device_values(&session, &sim, &step), device_values(&session, &sim, &one));
    assert_ne!(device_values(&session, &sim, &one), want);
}

#[test]
fn prefix_rows_are_vision_then_tokens() {
    let (mut rt, mut session, mut sim) = model();
    let vision = tensor(&mut rt.backend, &[2, 8], &values(16, 40));
    let prefix = rt.embed_prefix(&vision, &[6, 0]).expect("a prefix");
    run(&mut rt.backend.ctx, &mut session, &mut sim).expect("runs");
    let got = device_values(&session, &sim, &prefix);
    let table: Vec<f32> =
        values(56, 6).iter().map(|x| f16::from_f32(*x).to_f32()).collect();
    let mut want: Vec<f32> = values(16, 40).iter().map(|x| f16::from_f32(*x).to_f32()).collect();
    want.extend_from_slice(&table[48..56]);
    want.extend_from_slice(&table[0..8]);
    assert_eq!(got, want);
}

#[test]
fn a_warm_prefix_runs_inside_a_capture() {
    let (mut rt, mut session, mut sim) = model();
    let prefix = tensor(&mut rt.backend, &[9, 8], &values(72, 50));
    let forward = |rt: &mut Pi05AscendRuntime| rt.prefix_forward(&prefix).expect("keys and values");
    let cold = forward(&mut rt);
    rt.backend.synchronize();
    run(&mut rt.backend.ctx, &mut session, &mut sim).expect("runs");
    let want = device_values(&session, &sim, &cold.keys[1]);

    let owner = sim.malloc(1 << 20);
    session.enter_arena(1 << 20, 0, owner).expect("an arena");
    sim.in_capture = true;
    let warm = forward(&mut rt);
    run(&mut rt.backend.ctx, &mut session, &mut sim).expect("runs");
    sim.in_capture = false;
    assert!(session.exit_arena() > 0);
    assert_eq!(device_values(&session, &sim, &warm.keys[1]), want);
    let place = match warm.keys[1].storage {
        Storage::Gpu { device: _, buffer: Some(b) } => session.locate(&b).expect("live"),
        _ => panic!("not on the device"),
    };
    assert_eq!(place.owner, owner);
    assert_eq!(place.offset % 512, 0);
    assert_eq!(session.exit_arena(), 0);
    // memory comes from the driver again
    let more = rt.backend.ctx.malloc(16);
    run(&mut rt.backend.ctx, &mut session, &mut sim).expect("runs");
    assert_ne!(session.locate(&more).expect("live").owner, owner);
}

#[test]
fn an_exhausted_arena_is_reported() {
    let mut ctx = AscendContext::new(0);
    let (mut session, mut sim) = (Session::new(), Sim::new());
    let owner = sim.malloc(600);
    session.enter_arena(600, 0, owner).expect("an arena");
    let _ = ctx.malloc(100);
    let _ = ctx.malloc(100);
    let e = run(&mut ctx, &mut session, &mut sim).expect_err("exhausted");
    assert_eq!((e.code, e.op), (-1, "capture arena exhausted (grow enter_arena size)"));
    // the context can go on once the arena has been left
    assert!(session.recover(&mut ctx).is_empty());
    assert_eq!(session.exit_arena(), 100);
    let x = send(&mut ctx, &[1.0, 2.0]);
    run(&mut ctx, &mut session, &mut sim).expect("runs");
    assert_eq!(fetch(&session, &sim, &x), [1.0, 2.0]);
}

#[test]
fn a_model_goes_on_after_a_failure() {
    let (mut rt, mut session, mut sim) = model();
    let noise = tensor(&mut rt.backend, &[3, 5], &values(15, 21));
    let patches = tensor(&mut rt.backend, &[8, 12], &values(96, 20));
    let times = vec![
        tensor(&mut rt.backend, &[1, 6], &values(6, 22)),
        tensor(&mut rt.backend, &[1, 6], &values(6, 23)),
    ];
    rt.backend.synchronize();
    run(&mut rt.backend.ctx, &mut session, &mut sim).expect("runs");
    let live = sim.memory.len();
    let dt = (-0.5f32).to_bits();
    let infer = |rt: &mut Pi05AscendRuntime| {
        rt.infer(&patches, &[1, 4, 2], &noise, &times, dt).expect("an action")
    };
    // a kernel that was planned does not start
    let _ = infer(&mut rt);
    sim.fail = Some((sim.calls.len() + 150, 42));
    assert!(run(&mut rt.backend.ctx, &mut session, &mut sim).is_err());
    let handles = rt.recover(&mut session);
    for handle in handles {
        sim.descs.remove(&handle).expect("a live descriptor");
    }
    sim.fail = None;
    let action = infer(&mut rt);
    run(&mut rt.backend.ctx, &mut session, &mut sim).expect("runs");
    let got = device_values(&session, &sim, &action);
    let (mut other, mut session2, mut sim2) = model();
    let noise2 = tensor(&mut other.backend, &[3, 5], &values(15, 21));
    let patches2 = tensor(&mut other.backend, &[8, 12], &values(96, 20));
    let times2 = vec![
        tensor(&mut other.backend, &[1, 6], &values(6, 22)),
        tensor(&mut other.backend, &[1, 6], &values(6, 23)),
    ];
    let want = other.infer(&patches2, &[1, 4, 2], &noise2, &times2, dt).expect("an action");
    run(&mut other.backend.ctx, &mut session2, &mut sim2).expect("runs");
    assert_eq!(got, device_values(&session2, &sim2, &want));
    // what the failed program had allocated was freed by the next wait
    rt.backend.synchronize();
    run(&mut rt.backend.ctx, &mut session, &mut sim).expect("runs");
    other.backend.synchronize();
    run(&mut other.backend.ctx, &mut session2, &mut sim2).expect("runs");
    assert!(live <= sim.memory.len());
    // scratch memory of the failed program stays pooled, and is used again
    assert_eq!(sim.memory.len(), sim2.memory.len());
}

#[test]
fn a_wait_for_the_device_frees_what_was_given_back() {
    let mut ctx = AscendContext::new(0);
    let (mut session, mut sim) = (Session::new(), Sim::new());
    let x = send(&mut ctx, &[1.0, 2.0]);
    ctx.release(x);
    run(&mut ctx, &mut session, &mut sim).expect("runs");
    let device = OpenDevice { id: 0, raw: 1 };
    assert!(device.synchronize(&mut session, 9).is_err());
    assert_eq!(device.synchronize(&mut session, 0).expect("drained").len(), 1);
    assert!(device.synchronize(&mut session, 0).expect("drained").is_empty());
}

#[test]
fn columns_are_cut_row_by_row() {
    let mut ctx = AscendContext::new(0);
    let (mut session, mut sim) = (Session::new(), Sim::new());
    let x = send(&mut ctx, &[1.0, 2.0, 3.0, 4.0, 5.0, 6.0]);
    let middle = take_columns_fp16(&mut ctx, &x, 2, 3, 1, 1);
    let last = take_columns_fp16(&mut ctx, &x, 2, 3, 1, 2);
    run(&mut ctx, &mut session, &mut sim).expect("runs");
    assert_eq!(fetch(&session, &sim, &middle), [2.0, 5.0]);
    assert_eq!(fetch(&session, &sim, &last), [2.0, 3.0, 5.0, 6.0]);
}

#[test]
fn values_are_cut_from_the_row_of_their_token() {
    let (mut rt, mut session, mut sim) = model();
    let mut caches = AscendCaches::new();
    let c = config();
    let x = tensor(&mut rt.backend, &[3, 8], &values(24, 70));
    let out = language_layer_ascend(
        &mut rt.backend,
        &mut caches,
        c.language,
        &rt.weights.language_layers[0],
        &x,
        false,
        0,
        c.rms_norm_eps,
        c.rope_theta,
    )
    .expect("a layer");
    run(&mut rt.backend.ctx, &mut session, &mut sim).expect("runs");
    let gamma = values(8, 200);
    let mut normed = Vec::new();
    for row in values(24, 70).chunks(8) {
        let scale = (row.iter().map(|v| v * v).sum::<f32>() / 8.0 + 1e-6).sqrt();
        normed.extend(row.iter().zip(&gamma).map(|(v, g)| v / scale * g));
    }
    // eight query columns, four key columns, four value columns
    let fused = product(&normed, &values(8 * 16, 210), 3, 8, 16);
    let want: Vec<f32> = fused.chunks(16).flat_map(|row| row[12..16].to_vec()).collect();
    close(&device_values(&session, &sim, &out.value), &want, 0.02);
}

#[test]
fn the_wider_of_queries_and_keys_is_what_a_layer_reads() {
    let (mut rt, mut session, mut sim) = model();
    let mut caches = AscendCaches::new();
    let c = config();
    let stack = GemmaVariantConfig { num_heads: 1, num_kv_heads: 2, head_dim: 4, ..c.language };
    let qkv = linear(&mut rt.backend, 8, 20, 900, false);
    let scale = tensor(&mut rt.backend, &[8], &values(8, 901));
    let old = &mut rt.weights.language_layers[0];
    old.qkv = qkv;
    old.input_norm_scale = scale;
    let x = tensor(&mut rt.backend, &[16, 8], &values(128, 902));
    let out = language_layer_ascend(
        &mut rt.backend,
        &mut caches,
        stack,
        &rt.weights.language_layers[0],
        &x,
        false,
        0,
        c.rms_norm_eps,
        c.rope_theta,
    )
    .expect("a layer");
    run(&mut rt.backend.ctx, &mut session, &mut sim).expect("runs");
    let gamma = values(8, 901);
    let mut normed = Vec::new();
    for row in values(128, 902).chunks(8) {
        let scale = (row.iter().map(|v| v * v).sum::<f32>() / 8.0 + 1e-6).sqrt();
        normed.extend(row.iter().zip(&gamma).map(|(v, g)| v / scale * g));
    }
    // four query columns, eight key columns, eight value columns
    let fused = product(&normed, &values(8 * 20, 900), 16, 8, 20);
    let want: Vec<f32> = fused.chunks(20).flat_map(|row| row[12..20].to_vec()).collect();
    assert_eq!(out.value.dims, [16, 8]);
    close(&device_values(&session, &sim, &out.value), &want, 0.02);
}

#[test]
fn views_do_not_see_each_other() {
    let (mut rt, mut session, mut sim) = model();
    let mut caches = AscendCaches::new();
    let c = config();
    let first = values(16, 71);
    let mut one = first.clone();
    one.extend(values(16, 72));
    let mut two = first;
    two.extend(values(16, 73));
    let mut seen = Vec::new();
    for given in [one, two] {
        let x = tensor(&mut rt.backend, &[4, 8], &given);
        let y = vision_layer_ascend(
            &mut rt.backend,
            &mut caches,
            &rt.weights.vision_layers[0],
            &x,
            2,
            2,
            4,
            c.layer_norm_eps,
        )
        .expect("a layer");
        run(&mut rt.backend.ctx, &mut session, &mut sim).expect("runs");
        seen.push(device_values(&session, &sim, &y));
    }
    assert_eq!(seen[0][..16], seen[1][..16]);
    assert_ne!(seen[0][16..], seen[1][16..]);
}

#[test]
fn windows_are_attended_to_one_by_one() {
    let mut ctx = AscendContext::new(0);
    let (mut session, mut sim) = (Session::new(), Sim::new());
    let (q, k, v) = (values(16, 80), values(16, 81), values(16, 82));
    let (bq, bk, bv) = (send(&mut ctx, &q), send(&mut ctx, &k), send(&mut ctx, &v));
    let all = prompt_flash_attention_bsh_batch_fp16(&mut ctx, &bq, &bk, &bv, 2, 2, 2, 2, 2, None);
    let mut want = Vec::new();
    for w in 0..2 {
        let r = w * 8..(w + 1) * 8;
        let (a, b, c) =
            (send(&mut ctx, &q[r.clone()]), send(&mut ctx, &k[r.clone()]), send(&mut ctx, &v[r]));
        want.push(prompt_flash_attention_bsh_fp16(&mut ctx, &a, &b, &c, 2, 2, 2, 2, None));
    }
    run(&mut ctx, &mut session, &mut sim).expect("runs");
    let got = fetch(&session, &sim, &all);
    assert_eq!(got[..8], fetch(&session, &sim, &want[0]));
    assert_eq!(got[8..], fetch(&session, &sim, &want[1]));
}

#[test]
fn a_weight_is_transposed_once_for_its_address() {
    let mut ctx = AscendContext::new(0);
    let (mut session, mut sim) = (Session::new(), Sim::new());
    let mut caches = AscendCaches::new();
    let b = values(4, 90);
    let w = send(&mut ctx, &b);
    let x = send(&mut ctx, &[1.0, 2.0]);
    ctx.synchronize();
    let wide = caches.nz.get(&mut ctx, &w, 2);
    assert_eq!(caches.nz.get(&mut ctx, &w, 2), wide);
    assert_eq!(caches.nz.get(&mut ctx, &w, 1), wide);
    assert_eq!(caches.nz.get(&mut ctx, &DeviceBuffer { base: w.base, offset: 0, len: 4 }, 2), wide);
    // a product with another width still is the product
    let y = matmul(&mut ctx, &mut caches, &x, [2, 1], &w, [1, 4]);
    run(&mut ctx, &mut session, &mut sim).expect("runs");
    assert_eq!(fetch(&session, &sim, &wide)[1], f16::from_f32(b[2]).to_f32());
    close(&fetch(&session, &sim, &y), &product(&[1.0, 2.0], &b, 2, 1, 4), 0.01);
}

#[test]
fn an_arena_that_the_driver_refuses_is_not_entered() {
    let mut session = Session::new();
    let e = session.enter_arena(600, 3, 0).expect_err("refused");
    assert_eq!((e.code, e.op), (3, "aclrtMalloc"));
    assert_eq!(session.exit_arena(), 0);
}

#[test]
fn layers_take_tensors() {
    let (mut rt, mut session, mut sim) = model();
    let mut caches = AscendCaches::new();
    let c = config();
    let eps = c.rms_norm_eps;
    let theta = c.rope_theta;
    let x = tensor(&mut rt.backend, &[4, 8], &values(32, 60));
    let out = language_layer_ascend(
        &mut rt.backend,
        &mut caches,
        c.language,
        &rt.weights.language_layers[0],
        &x,
        true,
        0,
        eps,
        theta,
    )
    .expect("a layer");
    let bare = language_layer_ascend(
        &mut rt.backend,
        &mut caches,
        c.language,
        &rt.weights.language_layers[0],
        &x,
        false,
        0,
        eps,
        theta,
    )
    .expect("a layer");
    let seen = vision_layer_ascend(
        &mut rt.backend,
        &mut caches,
        &rt.weights.vision_layers[0],
        &x,
        2,
        2,
        4,
        c.layer_norm_eps,
    )
    .expect("a layer");
    let patches = tensor(&mut rt.backend, &[8, 12], &values(96, 61));
    let embedded = vision_patch_embed_ascend(
        &mut rt.backend,
        &mut caches,
        &rt.weights.patch_embedding,
        &rt.weights.position_embedding,
        &patches,
        4,
    )
    .expect("an embedding");
    let state = tensor(&mut rt.backend, &[3, 6], &values(18, 62));
    let style = tensor(&mut rt.backend, &[1, 18], &values(18, 63));
    let acted = action_layer_ascend(
        &mut rt.backend,
        &mut caches,
        c.action_expert,
        &rt.weights.action_layers[0],
        &state,
        None,
        &style,
        &style,
        &style,
        &out.key,
        &out.value,
        4,
        eps,
        theta,
    )
    .expect("a layer");
    run(&mut rt.backend.ctx, &mut session, &mut sim).expect("runs");
    assert_eq!(out.key.dims, [4, 4]);
    assert_eq!(out.value.dims, [4, 4]);
    assert_eq!(device_values(&session, &sim, &bare.key), device_values(&session, &sim, &out.key));
    assert_eq!(out.hidden.dims, [4, 8]);
    assert_eq!(seen.dims, [4, 8]);
    assert_eq!(acted.hidden.dims, [3, 6]);
    // the position table repeats for every view
    let same = tensor(&mut rt.backend, &[8, 12], &[0.0; 96]);
    let rows = vision_patch_embed_ascend(
        &mut rt.backend,
        &mut caches,
        &rt.weights.patch_embedding,
        &rt.weights.position_embedding,
        &same,
        4,
    )
    .expect("an embedding");
    run(&mut rt.backend.ctx, &mut session, &mut sim).expect("runs");
    let got = device_values(&session, &sim, &rows);
    assert_eq!(got[..32], got[32..]);
    assert_ne!(device_values(&session, &sim, &embedded), got);
}

fn vla() -> (Pi05AscendVlaRuntime, Session, Sim) {
    let (rt, session, sim) = model();
    let embeddings = vec![halves(&values(6, 70)), halves(&values(6, 71))];
    let vla = Pi05AscendVlaRuntime::new(rt, embeddings, (-0.5f32).to_bits()).expect("a model");
    (vla, session, sim)
}

fn request(patches: &[f32], drawn: &[f32]) -> VlaRequest {
    VlaRequest {
        vision: VisionObservation::Patches {
            tensor: Tensor {
                dims: vec![8, 12],
                dtype: DType::F32,
                device: Device::Cpu,
                storage: Storage::Cpu,
            },
            words: Ok(halves(patches)),
        },
        token_ids: vec![1, 2],
        latent: InitialLatent::Generate { drawn: halves(drawn) },
    }
}

#[test]
fn a_request_is_answered_with_an_action() {
    let (mut vla, mut session, mut sim) = vla();
    vla.runtime.backend.synchronize();
    run(&mut vla.runtime.backend.ctx, &mut session, &mut sim).expect("runs");
    let ask = || request(&values(96, 80), &values(15, 81));
    let action = vla.infer(ask(), Ok(()), Ok(())).expect("an action");
    run(&mut vla.runtime.backend.ctx, &mut session, &mut sim).expect("runs");
    let want = device_values(&session, &sim, action.tensor());
    assert_eq!(action.tensor().dims, [3, 5]);

    let prepared = vla.prepare("shape", Ok(())).expect("prepared");
    assert_eq!(*prepared.shape(), "shape");
    let again = prepared.run(&mut vla, ask(), true).expect("an action");
    run(&mut vla.runtime.backend.ctx, &mut session, &mut sim).expect("runs");
    assert_eq!(device_values(&session, &sim, again.tensor()), want);

    let slot = match vla.infer_host_f32(ask(), Ok(()), Ok(())).expect("an action") {
        OnHost::Slot(slot) => slot,
        OnHost::Held(_) => panic!("the action is on the device"),
    };
    run(&mut vla.runtime.backend.ctx, &mut session, &mut sim).expect("runs");
    let bytes = session
        .upload_bytes(apxinf_ascend::driver::action::HostBytes::Slot(slot))
        .expect("read back");
    let read: Vec<f32> =
        bytes_to_words(bytes).iter().map(|w| f16::from_bits(*w).to_f32()).collect();
    assert_eq!(read, want);
    vla.runtime.backend.drop_slot(slot);
    run(&mut vla.runtime.backend.ctx, &mut session, &mut sim).expect("runs");
}

#[test]
fn what_is_brought_for_a_request_is_given_back() {
    let (mut vla, mut session, mut sim) = vla();
    let ask = || request(&values(96, 82), &values(15, 83));
    for _ in 0..2 {
        let action = vla.infer(ask(), Ok(()), Ok(())).expect("an action");
        discard(&mut vla.runtime, action.tensor);
        vla.runtime.backend.synchronize();
        run(&mut vla.runtime.backend.ctx, &mut session, &mut sim).expect("runs");
    }
    let live = sim.memory.len();
    let action = vla.infer(ask(), Ok(()), Ok(())).expect("an action");
    vla.runtime.backend.synchronize();
    run(&mut vla.runtime.backend.ctx, &mut session, &mut sim).expect("runs");
    assert_eq!(action.tensor().dims, [3, 5]);
    assert!(sim.memory.len() > live);
}

#[test]
fn words_survive_the_trip_to_the_device() {
    let mut be = AscendBackend::new(0);
    let (mut session, mut sim) = (Session::new(), Sim::new());
    let words: Vec<u16> = (0..70u32).map(|i| (i * 937) as u16).collect();
    let host =
        Tensor { dims: vec![70], dtype: DType::F16, device: Device::Cpu, storage: Storage::Cpu };
    let there = be.to_device(&host, Ok(words.clone())).expect("uploads");
    assert_eq!(there.device, Device::Ascend(0));
    be.synchronize();
    let slot = match be.to_cpu(&there).expect("reads back") {
        OnHost::Slot(slot) => slot,
        OnHost::Held(_) => panic!("the tensor is on the device"),
    };
    run(&mut be.ctx, &mut session, &mut sim).expect("runs");
    let bytes = session
        .upload_bytes(apxinf_ascend::driver::action::HostBytes::Slot(slot))
        .expect("read back");
    assert_eq!(bytes_to_words(bytes), words);
    be.drop_slot(slot);
    run(&mut be.ctx, &mut session, &mut sim).expect("runs");
    assert!(session.upload_bytes(apxinf_ascend::driver::action::HostBytes::Slot(slot)).is_none());
}

#[test]
fn generated_noise_replaces_the_output() {
    let mut be = AscendBackend::new(0);
    let (mut session, mut sim) = (Session::new(), Sim::new());
    let t = tensor(&mut be, &[3], &[0.0, 0.0, 0.0]);
    let generator = be.create_normal_generator(t).expect("a generator");
    let out = generator.generate(&mut be, &halves(&[1.0, -2.0, 3.0])).expect("noise");
    run(&mut be.ctx, &mut session, &mut sim).expect("runs");
    assert_eq!(device_values(&session, &sim, out), [1.0, -2.0, 3.0]);
    assert_eq!(generator.output().dims, [3]);
}

#[test]
fn drawn_noise_is_what_a_generator_writes() {
    let (mut rt, mut session, mut sim) = model();
    let drawn = halves(&values(15, 84));
    let t = tensor(&mut rt.backend, &[3, 5], &[0.0; 15]);
    let generator = rt.backend.create_normal_generator(t).expect("a generator");
    let written = generator.generate(&mut rt.backend, &drawn).expect("noise");
    let host =
        Tensor { dims: vec![3, 5], dtype: DType::F16, device: Device::Cpu, storage: Storage::Cpu };
    let noise = rt.bring(&host, Ok(drawn)).expect("noise");
    run(&mut rt.backend.ctx, &mut session, &mut sim).expect("runs");
    assert_eq!(noise.dims, [3, 5]);
    assert_eq!(
        device_values(&session, &sim, &noise),
        device_values(&session, &sim, written)
    );
}

#[test]
fn backend_operations_on_tensors() {
    let mut be = AscendBackend::new(2);
    let (mut session, mut sim) = (Session::new(), Sim::new());
    let a = tensor(&mut be, &[2, 2], &[1.0, 2.0, 3.0, 4.0]);
    let b = tensor(&mut be, &[2, 2], &[5.0, 6.0, 7.0, 8.0]);
    let gamma = tensor(&mut be, &[2], &[1.0, 1.0]);
    let sum = be.add(&a, &b).expect("a sum");
    let multiplied = be.mul(&a, &b).expect("a product");
    let scaled = be.scale(&a, 0.5f32.to_bits()).expect("scaled");
    let joined = be.matmul(&a, &b).expect("a product");
    let gated = be.silu(&a).expect("gated");
    let normed = be.rms_norm(&a, &gamma, 0).expect("a norm");
    run(&mut be.ctx, &mut session, &mut sim).expect("runs");
    assert_eq!(device_values(&session, &sim, &sum), [6.0, 8.0, 10.0, 12.0]);
    assert_eq!(device_values(&session, &sim, &multiplied), [5.0, 12.0, 21.0, 32.0]);
    assert_eq!(device_values(&session, &sim, &scaled), [0.5, 1.0, 1.5, 2.0]);
    assert_eq!(device_values(&session, &sim, &joined), [19.0, 22.0, 43.0, 50.0]);
    assert_eq!(gated.dims, [2, 2]);
    let r = (2.5f32).sqrt();
    close(&device_values(&session, &sim, &normed)[..2], &[1.0 / r, 2.0 / r], 0.002);
    assert_eq!(be.device(), Device::Ascend(2));
}
