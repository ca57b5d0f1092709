//! Single functions on given values.

use apxinf_ascend::ada_rms::{available, launched, run};
use apxinf_ascend::backend::AscendBackend;
use apxinf_ascend::context::AscendContext;
use apxinf_ascend::device::{AclTensor, Base, Command, DeviceBuffer, ACL_FLOAT16, ACL_FORMAT_ND};
use apxinf_ascend::driver::session::Session;
use apxinf_ascend::encode::{
    bytes_to_words, cycle_bytes, f16_bits_to_f32, f32_to_f16_bits, f32_to_f16_bytes, id_bytes,
    ones_bytes, position_bytes, rotation_bytes, word_bytes,
};
use apxinf_ascend::error::{acl, acl_err, check, AclError, Device, Error};
use apxinf_ascend::exchange::OnHost;
use apxinf_ascend::executor::caches::{AscendCaches, NzCache};
use apxinf_ascend::executor::language::language_layer_ascend;
use apxinf_ascend::ge_builder::{
    and_next, fini, init, io_count, io_dims, io_i64, io_size, load, status, Dtype, GeArgs, GeGraph,
    GeReply,
};
use apxinf_ascend::graph::{abort, begin, captured, end, finish, AscendGraph, CaptureMode, GraphCall};
use apxinf_ascend::heap::{Arena, Block, Grant, Heap, Place};
use apxinf_ascend::host::{host_nz_reorder, host_transpose};
use apxinf_ascend::library::{library_path, Library};
use apxinf_ascend::model::{
    tensor_buf, Bf16DeviceLanguageLayer, Bf16LinearWeights, DType, GemmaVariantConfig, Pi05Config,
    StaticBf16Pi05Weights, Storage, Tensor, Bf16LayerNormWeights,
};
use apxinf_ascend::opening::{
    open_device, open_next, OpenCall, OpenDevice, OpenNext, OpenPhase, RuntimeInit,
};
use apxinf_ascend::rope::{cos_table_bytes, sin_table_bytes, AscendRopeCache};
use apxinf_ascend::runtime::pi05::Pi05AscendRuntime;
use apxinf_ascend::stream::AscendStream;
use apxinf_ascend::tensor::element_count;
use apxinf_ascend::vla::{
    InitialLatent, Pi05AscendVlaRuntime, VisionObservation, VlaRequest,
};
use half::f16;

fn text(e: Error) -> String {
    match e {
        Error::Other(t) => t,
        Error::UnsupportedDevice(d) => format!("{:?}", d),
    }
}

#[test]
fn errors_are_written_out() {
    let e = AclError { code: -507015, op: "aclnnMatmul" };
    assert_eq!(e.message(), "aclError -507015 at aclnnMatmul");
    assert_eq!(text(acl_err(e)), "aclnn: aclError -507015 at aclnnMatmul");
    assert_eq!(AclError { code: i32::MIN, op: "x" }.message(), "aclError -2147483648 at x");
    assert_eq!(check(0, "op"), Ok(()));
    assert_eq!(check(3, "op"), Err(AclError { code: 3, op: "op" }));
    assert!(matches!(acl::<u8>(Ok(4)), Ok(4)));
    let bridged = acl::<u8>(Err(AclError { code: 10, op: "y" }));
    assert_eq!(text(bridged.expect_err("an error")), "aclnn: aclError 10 at y");
}

#[test]
fn half_precision_words() {
    assert_eq!(f32_to_f16_bits(1.0f32.to_bits()), 0x3c00);
    assert_eq!(f32_to_f16_bits((-2.0f32).to_bits()), 0xc000);
    assert_eq!(f32_to_f16_bits(0.0f32.to_bits()), 0);
    assert_eq!(f32_to_f16_bits(0.5f32.to_bits()), 0x3800);
    assert_eq!(f16_bits_to_f32(0x3c00), 1.0f32.to_bits());
    assert_eq!(f16_bits_to_f32(0xc000), (-2.0f32).to_bits());
    for bits in 0..0x7c00u16 {
        assert_eq!(f32::from_bits(f16_bits_to_f32(bits)), f16::from_bits(bits).to_f32());
    }
    for bits in 0x0400..0x7c00u16 {
        assert_eq!(f32_to_f16_bits(f16_bits_to_f32(bits)), bits);
    }
    assert_eq!(f32_to_f16_bytes(&[1.0f32.to_bits(), (-1.0f32).to_bits()]), [0, 0x3c, 0, 0xbc]);
}

#[test]
fn index_rows() {
    assert_eq!(id_bytes(&[1, 258]), [1, 0, 0, 0, 2, 1, 0, 0]);
    let words = |bytes: Vec<u8>| -> Vec<i32> {
        bytes.chunks(4).map(|c| i32::from_le_bytes([c[0], c[1], c[2], c[3]])).collect()
    };
    assert_eq!(words(rotation_bytes(4)), [2, 3, 0, 1]);
    assert_eq!(words(position_bytes(2, 3, 5)), [5, 5, 5, 6, 6, 6]);
    assert_eq!(words(cycle_bytes(5, 2)), [0, 1, 0, 1, 0]);
    assert_eq!(ones_bytes(2), [0, 0x3c, 0, 0x3c]);
    assert_eq!(word_bytes(&[0x1234, 0xabcd]), [0x34, 0x12, 0xcd, 0xab]);
    assert_eq!(bytes_to_words(&[0x34, 0x12, 0xcd, 0xab, 7]), [0x1234, 0xabcd]);
}

#[test]
fn rotation_tables() {
    let c = [0.5f32.to_bits(), 0.25f32.to_bits()];
    let halves = |bytes: Vec<u8>| -> Vec<f32> {
        bytes_to_words(&bytes).iter().map(|w| f16::from_bits(*w).to_f32()).collect()
    };
    assert_eq!(halves(cos_table_bytes(&c, 2, 2)), [0.5, 0.5, 0.25, 0.25]);
    assert_eq!(halves(sin_table_bytes(&c, 2, 2)), [-0.5, 0.5, -0.25, 0.25]);
}

#[test]
fn matrices_are_transposed() {
    let m = word_bytes(&[1, 2, 3, 4, 5, 6]);
    let turned = host_transpose(&m, 2, 3);
    assert_eq!(bytes_to_words(&turned), [1, 4, 2, 5, 3, 6]);
    assert_eq!(host_transpose(&turned, 3, 2), m);
    assert!(host_transpose(&[], 0, 3).is_empty());
}

#[test]
fn matrices_are_laid_out_in_blocks() {
    let words: Vec<u16> = (0..2 * 17).collect();
    let (bytes, dims, strides) = host_nz_reorder(&word_bytes(&words), 2, 17);
    let out = bytes_to_words(&bytes);
    assert_eq!(out.len(), 2 * 16 * 16);
    assert_eq!(out[..3], [0, 1, 2]);
    assert_eq!(out[16..18], [17, 18]);
    // the second block of columns starts with the last column
    assert_eq!(out[256], 16);
    assert_eq!(out[256 + 16], 33);
    assert_eq!(out[32], 0);
    assert_eq!(dims.len(), strides.len());
    assert_eq!(dims.iter().product::<i64>(), 512);
}

#[test]
fn arena_blocks_are_aligned_and_apart() {
    let mut arena = Arena { owner: 9, cap: 2000, off: 0 };
    let block = |offset: usize, len: usize| {
        Some(Block { place: Place { owner: 9, offset }, len, owned: false })
    };
    assert_eq!(arena.grant(100), block(0, 100));
    assert_eq!(arena.grant(600), block(512, 600));
    assert_eq!(arena.grant(500), None);
    assert_eq!(arena.grant(464), block(1536, 464));
    assert_eq!(arena.off, 2000);
    assert_eq!(arena.grant(usize::MAX), None);
}

#[test]
fn memory_comes_from_the_arena_while_one_is_active() {
    let mut heap = Heap::new();
    assert!(matches!(heap.malloc(10), Grant::Driver));
    let owner = heap.enter_arena(1024, 0, 77).expect("an arena");
    assert_eq!(owner, Block { place: Place { owner: 77, offset: 0 }, len: 1024, owned: true });
    assert!(matches!(heap.malloc(10), Grant::Arena(b) if b.place.owner == 77 && !b.owned));
    match heap.malloc(2000) {
        Grant::Refused(e) => {
            assert_eq!((e.code, e.op), (-1, "capture arena exhausted (grow enter_arena size)"))
        }
        _ => panic!("the arena has no room"),
    }
    assert_eq!(heap.exit_arena(), 10);
    assert!(matches!(heap.malloc(10), Grant::Driver));
    assert_eq!(heap.exit_arena(), 0);
    heap.enter_arena(1024, 0, 78).expect("an arena");
    heap.clear_arena();
    assert!(matches!(heap.malloc(10), Grant::Driver));
    // giving back parks owned memory only
    heap.release(Block { place: Place { owner: 77, offset: 512 }, len: 1, owned: false });
    heap.release(Block { place: Place { owner: 0, offset: 0 }, len: 1, owned: true });
    heap.release(owner);
    assert_eq!(heap.flush_pending_frees(), [77]);
    assert!(heap.flush_pending_frees().is_empty());
    assert_eq!(
        heap.enter_arena(8, 5, 0),
        Err(AclError { code: 5, op: "aclrtMalloc" })
    );
}

#[test]
fn shapes_of_model_inputs_are_written_out() {
    let g = GeGraph { handle: 3 };
    let (format, shape) = g.set_nd_input_shape(&[("x", &[1, -1, 30]), ("mask", &[]), ("y", &[7])]);
    assert_eq!((format.symbol, format.op), ("geb_set_option", "geb_set_option"));
    match (format.args, shape.args) {
        (GeArgs::Texts { first, second }, GeArgs::Texts { first: key, second: value }) => {
            assert_eq!((first.as_str(), second.as_str()), ("input_format", "ND"));
            assert_eq!((key.as_str(), value.as_str()), ("input_shape", "x:1,-1,30;mask:;y:7"));
        }
        _ => panic!("two texts"),
    }
    let second = g.build();
    let e = and_next("geb_set_option", &GeReply::Code(4), second).expect_err("stops");
    assert_eq!(e, AclError { code: 4, op: "geb_set_option" });
    let next = and_next("geb_set_option", &GeReply::Code(0), g.build()).expect("goes on");
    assert_eq!(next.symbol, "geb_model_build");
}

#[test]
fn graph_nodes_are_described() {
    let g = GeGraph { handle: 3 };
    let call = g.set_input_desc("mm", "x1", &[2, 3], Dtype::Fp16);
    assert_eq!((call.symbol, call.op), ("geb_set_input_desc", "geb_set_input_desc"));
    match call.args {
        GeArgs::Desc { node, port, dims, rank, dtype } => {
            assert_eq!((node.as_str(), port.as_str(), dtype), ("mm", "x1", "fp16"));
            assert_eq!((dims, rank), (vec![2, 3], 2));
        }
        _ => panic!("a descriptor"),
    }
    assert_eq!(g.set_output_desc("mm", "y", &[], Dtype::Int64).symbol, "geb_set_output_desc");
    assert_eq!(Dtype::Fp32.as_c(), "fp32");
    assert_eq!(Dtype::Int32.as_c(), "int32");
    assert_eq!(Dtype::Int64.as_c(), "int64");
    match g.add_data("x", 1, &[4], Dtype::Fp32).args {
        GeArgs::Data { name, input, dims, rank, dtype } => {
            assert_eq!((name.as_str(), input, dims, rank, dtype), ("x", 1, vec![4], 1, "fp32"));
        }
        _ => panic!("a node"),
    }
    match g.add_op("mm", "MatMulV2").args {
        GeArgs::Texts { first, second } => {
            assert_eq!((first.as_str(), second.as_str()), ("mm", "MatMulV2"))
        }
        _ => panic!("two texts"),
    }
    assert!(matches!(g.set_attr_bool("n", "a", true).args, GeArgs::Flag { flag: 1, .. }));
    assert!(matches!(g.set_attr_bool("n", "a", false).args, GeArgs::Flag { flag: 0, .. }));
    assert!(matches!(g.set_attr_int("n", "a", -5).args, GeArgs::Integer { value: -5, .. }));
    let half = 0.5f64.to_bits();
    assert!(matches!(g.set_attr_float("n", "a", half).args, GeArgs::Real { bits, .. } if bits == half));
    match g.set_attr_str("n", "a", "BSH").args {
        GeArgs::ThreeTexts { first, second, third } => {
            assert_eq!([first, second, third], ["n", "a", "BSH"])
        }
        _ => panic!("three texts"),
    }
    match g.set_attr_int_list("n", "a", &[1, 2, 3]).args {
        GeArgs::Integers { node: _, attr: _, values, count } => {
            assert_eq!((values, count), (vec![1, 2, 3], 3))
        }
        _ => panic!("integers"),
    }
    match g.link("dst", "x1", "src").args {
        GeArgs::ThreeTexts { first, second, third } => {
            assert_eq!([first, second, third], ["dst", "x1", "src"])
        }
        _ => panic!("three texts"),
    }
    match g.graph_inputs(&["a", "b"]).args {
        GeArgs::Names { names, count } => assert_eq!((names, count), (vec!["a".into(), "b".into()], 2)),
        _ => panic!("names"),
    }
    assert_eq!(g.graph_outputs(&[]).symbol, "geb_graph_outputs");
}

#[test]
fn models_are_opened_run_and_closed() {
    assert_eq!(init("Ascend310P3").symbol, "geb_init");
    assert_eq!(fini().symbol, "geb_fini");
    assert_eq!(load("m.om").op, "geb_model_load");
    assert_eq!(GeGraph::begin("m").op, "geb_model_begin");
    assert_eq!(GeGraph::opened("geb_model_begin", &GeReply::Wide(5)), Ok(GeGraph { handle: 5 }));
    assert_eq!(
        GeGraph::opened("geb_model_load", &GeReply::Wide(-2)),
        Err(AclError { code: -2, op: "geb_model_load" })
    );
    let g = GeGraph { handle: 5 };
    let a = DeviceBuffer { base: Base::Fresh(1), offset: 4, len: 8 };
    let b = DeviceBuffer { base: Base::Kept(2), offset: 0, len: 8 };
    let stream = AscendStream { raw: 11 };
    match g.run(&[&a], &[&b], &stream).args {
        GeArgs::Run { handle, inputs, input_count, outputs, output_count, stream } => {
            assert_eq!((handle, input_count, output_count, stream), (5, 1, 1, Some(11)));
            assert_eq!((inputs[0], outputs[0]), (a.as_ptr(), b.as_ptr()));
        }
        _ => panic!("a run"),
    }
    assert!(matches!(g.run_sync(&[], &[]).args, GeArgs::Run { stream: None, .. }));
    assert!(matches!(g.save("p").args, GeArgs::HandleText { handle: 5, .. }));
    assert_eq!(g.unload().symbol, "geb_model_unload");
    assert_eq!(g.set_option("k", "v").symbol, "geb_set_option");
}

#[test]
fn models_report_their_inputs_and_outputs() {
    let g = GeGraph { handle: 5 };
    assert_eq!(g.num_inputs().symbol, "geb_num_inputs");
    assert_eq!(g.num_outputs().symbol, "geb_num_outputs");
    assert!(matches!(g.input_size(2).args, GeArgs::Port { handle: 5, index: 2 }));
    assert_eq!(g.output_size(0).symbol, "geb_output_size");
    assert!(matches!(g.input_dims(1).args, GeArgs::PortDims { handle: 5, index: 1, room: 16 }));
    assert_eq!(g.output_dims(1).symbol, "geb_output_dims");
    let missing = AclError { code: -1, op: "ge load" };
    let unknown = AclError { code: -1, op: "ge dlsym" };
    assert_eq!(io_count(&GeReply::Code(2)), Ok(2));
    assert_eq!(io_count(&GeReply::Code(-3)), Err(AclError { code: -3, op: "io count" }));
    assert_eq!(io_count(&GeReply::NoLibrary), Err(missing));
    assert_eq!(io_i64(&GeReply::Wide(4096)), Ok(4096));
    assert_eq!(io_size(&GeReply::Wide(4096)), Ok(4096));
    assert_eq!(io_size(&GeReply::Wide(-9)), Err(AclError { code: -9, op: "io query" }));
    assert_eq!(io_size(&GeReply::NoSymbol), Err(unknown));
    let axes = vec![7, 8, 9];
    assert_eq!(io_dims(GeReply::Dims { code: 2, axes: axes.clone() }), Ok(vec![7, 8]));
    assert_eq!(
        io_dims(GeReply::Dims { code: -4, axes }),
        Err(AclError { code: -4, op: "io dims" })
    );
    assert_eq!(io_dims(GeReply::NoLibrary), Err(missing));
    assert_eq!(status("geb_fini", &GeReply::Code(0)), Ok(()));
    assert_eq!(status("geb_fini", &GeReply::Code(1)), Err(AclError { code: 1, op: "geb_fini" }));
    assert_eq!(status("geb_fini", &GeReply::NoSymbol), Err(unknown));
}

#[test]
fn captures_and_replays() {
    let stream = AscendStream::new(0, 6).expect("a stream");
    assert_eq!(stream.handle(), 6);
    assert!(stream.is_open());
    assert_eq!(AscendStream::new(2, 0), Err(AclError { code: 2, op: "aclrtCreateStream" }));
    let mut session = Session::new();
    assert_eq!(stream.synchronize(&mut session, 0), Ok(vec![]));
    assert_eq!(
        stream.synchronize(&mut session, 1),
        Err(AclError { code: 1, op: "aclrtSynchronizeStream" })
    );
    assert_eq!(CaptureMode::Global.as_acl(), 0);
    assert_eq!(CaptureMode::ThreadLocal.as_acl(), 1);
    assert_eq!(CaptureMode::Relaxed.as_acl(), 2);
    let opened = begin(&stream, CaptureMode::Relaxed);
    assert_eq!(opened, GraphCall::CaptureBegin { stream: 6, mode: 2 });
    assert_eq!(finish(opened, 207000), Err(AclError { code: 207000, op: "aclmdlRICaptureBegin" }));
    assert_eq!(end(&stream), GraphCall::CaptureEnd { stream: 6 });
    assert_eq!(abort(&stream), GraphCall::Abort { stream: 6 });
    assert_eq!(finish(abort(&stream), 1), Err(AclError { code: 1, op: "aclmdlRIAbort" }));
    assert_eq!(
        captured(&stream, 4, 0),
        Err(AclError { code: 4, op: "aclmdlRICaptureEnd" })
    );
    let graph = captured(&stream, 0, 30).expect("a graph");
    assert_eq!(graph.replay(), GraphCall::ExecuteAsync { graph: 30, stream: 6 });
    assert_eq!(graph.replay_sync(0), Ok(GraphCall::SynchronizeStream { stream: 6 }));
    assert_eq!(graph.replay_sync(9), Err(AclError { code: 9, op: "aclmdlRIExecuteAsync" }));
    assert_eq!(graph.destroy(), Some(GraphCall::Destroy { graph: 30 }));
    assert_eq!(AscendGraph { ri: 0, stream: 6 }.destroy(), None);
    let be = AscendBackend::new(0);
    assert_eq!(be.begin_capture(&stream), GraphCall::CaptureBegin { stream: 6, mode: 1 });
    assert_eq!(be.end_capture(&stream), end(&stream));
}

#[test]
fn the_fused_norm_needs_its_library() {
    let mut library = Library::Untried;
    assert!(library.is_untried() && !available(&library));
    let b = DeviceBuffer { base: Base::Fresh(1), offset: 4, len: 8 };
    let stream = AscendStream { raw: 2 };
    assert_eq!(
        run(&library, &stream, &b, &b, &b, &b, 1, 2, 3, 4, 0),
        Err(AclError { code: -1, op: "ada_rms load" })
    );
    library.tried(true);
    assert!(available(&library));
    library.tried(false);
    assert!(available(&library), "the first attempt decides");
    let call = run(&library, &stream, &b, &b, &b, &b, 1, 2, 3, 4, 5).expect("a launch");
    assert_eq!((call.rows, call.cols, call.eps, call.cores, call.diag), (1, 2, 3, 4, 5));
    assert_eq!((call.x, call.stream), (b.as_ptr(), 2));
    assert_eq!(launched(Some(0)), Ok(()));
    assert_eq!(launched(Some(7)), Err(AclError { code: 7, op: "ada_rms_norm_run" }));
    assert_eq!(launched(None), Err(AclError { code: -1, op: "ada_rms dlsym" }));
    let mut gone = Library::Untried;
    gone.tried(false);
    assert_eq!(gone, Library::Missing);
    assert_eq!(library_path(None, "/lib/a.so"), "/lib/a.so");
    assert_eq!(library_path(Some("b.so".into()), "/lib/a.so"), "b.so");
}

#[test]
fn a_device_is_opened_step_by_step() {
    let mut init = RuntimeInit { code: None };
    let (phase, next) = open_device(init, 1);
    assert!(matches!(next, OpenNext::Do(OpenCall::Init)));
    let (phase, next) = open_next(phase, 0, 0);
    assert!(matches!(next, OpenNext::Do(OpenCall::SetDevice { id: 1 })));
    let (phase, next) = open_next(phase, 0, 0);
    assert!(matches!(next, OpenNext::Do(OpenCall::CreateContext { id: 1 })));
    let (_, next) = open_next(phase, 0, 40);
    match next {
        OpenNext::Opened(device) => {
            assert_eq!(device, OpenDevice { id: 1, raw: 40 });
            assert_eq!(device.device_id(), 1);
            assert_eq!(
                device.set_current(2),
                Err(AclError { code: 2, op: "aclrtSetCurrentContext" })
            );
            let mut session = Session::new();
            assert_eq!(
                device.synchronize(&mut session, 3),
                Err(AclError { code: 3, op: "aclrtSynchronizeDevice" })
            );
            assert_eq!(device.synchronize(&mut session, 0), Ok(vec![]));
        }
        _ => panic!("the device is open"),
    }
    init.tried(0);
    init.tried(100);
    assert_eq!(init.code, Some(0));
    assert!(matches!(open_device(init, 1).1, OpenNext::Do(OpenCall::SetDevice { id: 1 })));
}

#[test]
fn opening_a_device_fails_with_the_call() {
    let failed = |next: OpenNext| match next {
        OpenNext::Failed(e) => (e.code, e.op),
        _ => panic!("no failure"),
    };
    assert_eq!(failed(open_device(RuntimeInit { code: Some(5) }, 0).1), (5, "aclInit"));
    assert_eq!(failed(open_next(OpenPhase::Init { device_id: 0 }, 6, 0).1), (6, "aclInit"));
    let up = RuntimeInit { code: Some(0) };
    assert_eq!(failed(open_device(up, 1 << 31).1), (-1, "device_id overflow"));
    assert_eq!(failed(open_next(OpenPhase::SetDevice { id: 0 }, 7, 0).1), (7, "aclrtSetDevice"));
    let (phase, next) = open_next(OpenPhase::CreateContext { id: 0 }, 8, 0);
    assert!(matches!(next, OpenNext::Do(OpenCall::ResetDevice { id: 0 })));
    assert_eq!(failed(open_next(phase, 0, 0).1), (8, "aclrtCreateContext"));
}

#[test]
fn commands_are_recorded_in_order() {
    let mut ctx = AscendContext::new(4);
    assert_eq!(ctx.device_id(), 4);
    let a = ctx.malloc(4);
    let b = ctx.malloc(4);
    ctx.memset_async(&a, 9);
    ctx.copy_d2d_async(&b, &a);
    ctx.release(a);
    let program = ctx.take_program();
    assert_eq!(program.len(), 5);
    assert!(matches!(program[0], Command::Malloc { base: Base::Fresh(0), len: 4 }));
    assert!(matches!(program[2], Command::Fill { value: 9, .. }));
    assert!(matches!(program[3], Command::Copy { op: "aclrtMemcpyAsync d2d", .. }));
    assert!(matches!(program[4], Command::Release { base: Base::Fresh(0) }));
    assert!(ctx.take_program().is_empty());
}

#[test]
fn descriptors_are_row_major() {
    let b = DeviceBuffer { base: Base::Fresh(0), offset: 0, len: 48 };
    let t = AclTensor::fp16_nd(&b, &[2, 3, 4]);
    assert_eq!(t.strides, [12, 4, 1]);
    assert_eq!((t.dtype, t.format), (ACL_FLOAT16, ACL_FORMAT_ND));
    assert_eq!(t.storage, Some(vec![2, 3, 4]));
    assert_eq!(element_count(&[2, 3, 4]), 24);
    let row = DeviceBuffer { base: Base::Fresh(0), offset: 0, len: 6 };
    let many = AclTensor::fp16_row_broadcast(&row, 5, 3);
    assert_eq!((many.dims, many.strides), (vec![5, 3], vec![0, 1]));
}

fn host(dims: &[usize], dtype: DType) -> Tensor {
    Tensor { dims: dims.to_vec(), dtype, device: Device::Cpu, storage: Storage::Cpu }
}

#[test]
fn tensors_elsewhere_are_refused() {
    let mut be = AscendBackend::new(0);
    let cpu = host(&[2, 2], DType::F16);
    let bare = Tensor {
        dims: vec![2, 2],
        dtype: DType::F16,
        device: Device::Ascend(0),
        storage: Storage::Gpu { device: Device::Ascend(0), buffer: None },
    };
    assert!(matches!(be.silu(&cpu), Err(Error::UnsupportedDevice(Device::Cpu))));
    let missing = "ascend tensor storage missing DeviceBuffer";
    assert_eq!(text(be.silu(&bare).expect_err("refused")), missing);
    assert_eq!(text(be.add(&bare, &cpu).expect_err("refused")), missing);
    assert!(matches!(tensor_buf(&cpu), Err(Error::UnsupportedDevice(Device::Cpu))));
    assert_eq!(text(tensor_buf(&bare).expect_err("refused")), "tensor missing ascend storage");
    let cube = host(&[1, 2, 3], DType::F16);
    assert_eq!(
        text(be.rms_norm(&cube, &cpu, 0).expect_err("refused")),
        "ascend rms_norm expects 2-D [seq, hidden], got [1, 2, 3] (flatten first)"
    );
    assert_eq!(
        text(be.matmul(&host(&[2, 3], DType::F16), &host(&[2, 3], DType::F16)).expect_err("refused")),
        "ascend matmul expects 2-D [m,k]x[k,n], got [2, 3]x[2, 3]"
    );
    assert!(matches!(be.to_cpu(&cpu), Ok(OnHost::Held(t)) if t.dims == [2, 2]));
    assert_eq!(text(be.to_cpu(&bare).expect_err("refused")), missing);
    let unread = be.to_device(&cpu, Err(Error::Other("unreadable".into())));
    assert_eq!(text(unread.expect_err("refused")), "unreadable");
    assert!(be.to_device(&bare, Err(Error::Other("unreadable".into()))).is_ok());
    assert!(be.ctx.take_program().is_empty());
}

#[test]
fn generators_want_words_of_this_device() {
    let be = AscendBackend::new(1);
    let elsewhere = host(&[1], DType::F16);
    assert!(matches!(
        be.create_normal_generator(elsewhere),
        Err(Error::UnsupportedDevice(Device::Cpu))
    ));
    let storage = Storage::Gpu { device: Device::Ascend(1), buffer: None };
    let wide = Tensor { dims: vec![1], dtype: DType::F32, device: Device::Ascend(1), storage };
    assert_eq!(
        text(be.create_normal_generator(wide).expect_err("refused")),
        "ascend normal generator expects F16 output, got F32"
    );
    let bare = Tensor { dims: vec![1], dtype: DType::F16, device: Device::Ascend(1), storage };
    assert_eq!(
        text(be.create_normal_generator(bare).expect_err("refused")),
        "ascend tensor storage missing DeviceBuffer"
    );
}

#[test]
fn operations_that_are_not_provided_say_so() {
    let be = AscendBackend::new(0);
    assert_eq!(
        text(be.rope().expect_err("refused")),
        "ascend rope pending (aclnnApplyRotaryPosEmbV2 queued)"
    );
    assert_eq!(
        text(be.embedding().expect_err("refused")),
        "ascend embedding pending (gather op queued)"
    );
    assert_eq!(
        text(be.sdpa_decode().expect_err("refused")),
        "ascend sdpa_decode pending (kv cache queued)"
    );
    assert_eq!(
        text(be.sdpa_prefill().expect_err("refused")),
        "ascend sdpa_prefill pending (kv cache queued)"
    );
    assert_eq!(text(be.kv_append().expect_err("refused")), "ascend kv_append pending");
    assert_eq!(
        text(be.create_token_sampler().expect_err("refused")),
        "ascend token sampler pending (flow sampling lands with the PI0.5 executor)"
    );
}

fn config() -> Pi05Config {
    let stack = GemmaVariantConfig {
        width: 4,
        depth: 0,
        mlp_dim: 4,
        num_heads: 1,
        num_kv_heads: 1,
        head_dim: 4,
    };
    Pi05Config {
        vision_depth: 0,
        vision_width: 4,
        vision_heads: 1,
        vision_head_dim: 4,
        language: stack,
        action_expert: stack,
        num_views: 3,
        image_size: 224,
        patch_size: 14,
        action_horizon: 50,
        action_dim: 32,
        max_token_len: 2,
        num_flow_steps: 2,
        layer_norm_eps: 0,
        rms_norm_eps: 0,
        rope_theta: 0,
    }
}

fn on_device(dims: &[usize]) -> Tensor {
    let buffer = DeviceBuffer { base: Base::Kept(0), offset: 0, len: 2 * dims.iter().product::<usize>() };
    Tensor {
        dims: dims.to_vec(),
        dtype: DType::F16,
        device: Device::Ascend(0),
        storage: Storage::Gpu { device: Device::Ascend(0), buffer: Some(buffer) },
    }
}

fn linear() -> Bf16LinearWeights {
    Bf16LinearWeights {
        weight: on_device(&[4, 4]),
        bias: None,
        bf16_dual_geglu_interleaved: false,
    }
}

fn weights() -> StaticBf16Pi05Weights {
    StaticBf16Pi05Weights {
        patch_embedding: linear(),
        position_embedding: on_device(&[4, 4]),
        vision_layers: vec![],
        vision_post_norm: Bf16LayerNormWeights { weight: on_device(&[4]), bias: on_device(&[4]) },
        multimodal_projector: linear(),
        token_embedding: on_device(&[4, 4]),
        language_layers: vec![],
        action_layers: vec![],
        action_final_style: linear(),
        action_in: linear(),
        action_out: linear(),
        time_mlp_in: linear(),
        time_mlp_out: linear(),
    }
}

fn language_layer(interleaved: bool) -> Bf16DeviceLanguageLayer {
    Bf16DeviceLanguageLayer {
        input_norm_scale: on_device(&[4]),
        qkv: linear(),
        output: linear(),
        post_attention_norm_scale: on_device(&[4]),
        gate_up: Bf16LinearWeights { bf16_dual_geglu_interleaved: interleaved, ..linear() },
        down: linear(),
    }
}

#[test]
fn models_that_do_not_fit_are_refused() {
    let make = |c: Pi05Config, w: StaticBf16Pi05Weights, v: Result<(), Error>| {
        Pi05AscendRuntime::new(AscendBackend::new(0), c, w, v)
    };
    let invalid = make(config(), weights(), Err(Error::Other("bad config".into())));
    assert_eq!(text(invalid.err().expect("refused")), "bad config");
    let mut deep = config();
    deep.language.depth = 1;
    assert_eq!(
        text(make(deep, weights(), Ok(())).err().expect("refused")),
        "π0.5 Ascend device weight depth mismatch"
    );
    let mut w = weights();
    w.language_layers.push(language_layer(true));
    assert_eq!(
        text(make(deep, w, Ok(())).err().expect("refused")),
        "π0.5 Ascend path requires plain [gate; up] gate_up weights (interleaved tactic layout is CUDA-only)"
    );
    let fine = make(config(), weights(), Ok(())).expect("a model");
    assert_eq!(*fine.config(), config());
}

#[test]
fn token_counts_are_checked() {
    let mut rt =
        Pi05AscendRuntime::new(AscendBackend::new(0), config(), weights(), Ok(())).expect("a model");
    let vision = on_device(&[1, 4]);
    assert_eq!(
        text(rt.embed_prefix(&vision, &[]).expect_err("refused")),
        "π0.5 token count must be in 1..=2, got 0"
    );
    assert_eq!(
        text(rt.embed_prefix(&vision, &[1, 2, 3]).expect_err("refused")),
        "π0.5 token count must be in 1..=2, got 3"
    );
    assert!(rt.backend.ctx.take_program().is_empty());
}

#[test]
fn layers_want_weights_on_the_device() {
    let mut be = AscendBackend::new(0);
    let mut caches = AscendCaches::default();
    let mut layer = language_layer(false);
    layer.qkv.weight = host(&[4, 12], DType::F16);
    let stack = GemmaVariantConfig { depth: 1, ..config().language };
    let r = language_layer_ascend(
        &mut be,
        &mut caches,
        stack,
        &layer,
        &on_device(&[2, 4]),
        true,
        0,
        0,
        0,
    );
    assert!(matches!(r, Err(Error::UnsupportedDevice(Device::Cpu))));
    assert!(be.ctx.take_program().is_empty());
}

fn small_vla() -> Pi05AscendVlaRuntime {
    let rt =
        Pi05AscendRuntime::new(AscendBackend::new(0), config(), weights(), Ok(())).expect("a model");
    let rows = vec![vec![0u16; 4], vec![1u16; 4]];
    Pi05AscendVlaRuntime::new(rt, rows, 0).expect("a model")
}

#[test]
fn the_model_says_what_it_takes() {
    let c = small_vla().contract();
    assert_eq!((c.action_rows, c.action_cols), (50, 32));
    assert_eq!((c.patch_rows, c.patch_cols), (3 * 256, 588));
    assert_eq!((c.max_token_len, c.num_views, c.image_size, c.patch_size), (2, 3, 224, 14));
    assert!(!c.accepts_rgb_u8);
}

#[test]
fn time_embeddings_are_brought_once() {
    let mut vla = small_vla();
    assert_eq!(vla.time_embeddings.len(), 2);
    assert_eq!(vla.time_embeddings[1].dims, [1, 4]);
    let program = vla.runtime.backend.ctx.take_program();
    match &program[3] {
        Command::Upload { dst: _, bytes } => assert_eq!(bytes, &word_bytes(&[1; 4])),
        _ => panic!("an upload"),
    }
}

#[test]
fn requests_are_refused_with_a_reason() {
    let ask = |vision: VisionObservation| VlaRequest {
        vision,
        token_ids: vec![1],
        latent: InitialLatent::Generate { drawn: vec![0; 1600] },
    };
    let mut vla = small_vla();
    vla.runtime.backend.ctx.take_program();
    let raw = vla.infer(ask(VisionObservation::RgbU8), Ok(()), Ok(()));
    assert_eq!(
        text(raw.expect_err("refused")),
        "π0.5 ascend path expects preprocessed patches (rgb-u8 patchify pending)"
    );
    let bad = vla.infer(ask(VisionObservation::RgbU8), Err(Error::Other("obs".into())), Ok(()));
    assert_eq!(text(bad.expect_err("refused")), "obs");
    let bad = vla.infer(ask(VisionObservation::RgbU8), Ok(()), Err(Error::Other("spec".into())));
    assert_eq!(text(bad.expect_err("refused")), "spec");
    let prepared = vla.prepare(1u8, Ok(())).expect("prepared");
    let other = prepared.run(&mut vla, ask(VisionObservation::RgbU8), false);
    assert_eq!(
        text(other.expect_err("refused")),
        "π0.5 ascend prepared spec does not match the request"
    );
    let invalid = vla.prepare(1u8, Err(Error::Other("no".into())));
    assert_eq!(text(invalid.expect_err("refused")), "no");
    assert!(vla.runtime.backend.ctx.take_program().is_empty());
    let unread = VisionObservation::Patches {
        tensor: host(&[768, 588], DType::F32),
        words: Err(Error::Other("unreadable".into())),
    };
    assert_eq!(text(vla.infer(ask(unread), Ok(()), Ok(())).expect_err("refused")), "unreadable");
}

#[test]
fn default_caches_hold_nothing() {
    let caches = AscendCaches::default();
    assert!(caches.token_idx.is_empty());
    assert_eq!(format!("{:?}", caches), format!("{:?}", AscendCaches::new()));
    assert_eq!(format!("{:?}", caches.nz), format!("{:?}", NzCache::default()));
    assert_eq!(format!("{:?}", caches.rope), format!("{:?}", AscendRopeCache::default()));
}
