//! Building, loading and running offline graph models through the graph builder
//! library.
//!
//! What a model holds is said here: operators, descriptors, attributes and wiring.
//! Every function gives the call to make; the answer to it is read by [`status`],
//! [`GeGraph::opened`], [`io_count`], [`io_i64`] or [`io_dims`].
//!
//! A building session starts before the process opens a device. Nodes, options,
//! attributes and links go to the model that was begun last; several models may be
//! loaded side by side.

use vstd::prelude::*;
use vstd::string::StringExecFns;

use crate::device::{DeviceBuffer, DevicePtr};
use crate::error::AclError;
use crate::stream::AscendStream;
use crate::text::{append_separated, separated};

verus! {

/// Element type of a graph tensor.
#[derive(Debug, Clone, Copy, PartialEq, Eq, Structural)]
pub enum Dtype {
    Fp16,
    Fp32,
    Int32,
    Int64,
}

/// The library's name for an element type.
pub open spec fn dtype_name(dtype: Dtype) -> Seq<char> {
    match dtype {
        Dtype::Fp16 => "fp16"@,
        Dtype::Fp32 => "fp32"@,
        Dtype::Int32 => "int32"@,
        Dtype::Int64 => "int64"@,
    }
}

impl Dtype {
    /// The library's name for the type.
    pub fn as_c(&self) -> (name: &'static str)
        ensures
            name@ == dtype_name(*self),
    {
        match self {
            Dtype::Fp16 => "fp16",
            Dtype::Fp32 => "fp32",
            Dtype::Int32 => "int32",
            Dtype::Int64 => "int64",
        }
    }
}

/// The arguments of a call, by the shape of the library function.
#[derive(Debug)]
pub enum GeArgs {
    Nothing,
    Text { text: String },
    Texts { first: String, second: String },
    ThreeTexts { first: String, second: String, third: String },
    Data { name: String, input: i64, dims: Vec<i64>, rank: i32, dtype: &'static str },
    Desc { node: String, port: String, dims: Vec<i64>, rank: i32, dtype: &'static str },
    Flag { node: String, attr: String, flag: i32 },
    Integer { node: String, attr: String, value: i64 },
    /// `bits` is a double-precision pattern.
    Real { node: String, attr: String, bits: u64 },
    Integers { node: String, attr: String, values: Vec<i64>, count: i32 },
    Names { names: Vec<String>, count: i32 },
    Handle { handle: i64 },
    Port { handle: i64, index: i32 },
    /// `room` is how many axes the caller has room for.
    PortDims { handle: i64, index: i32, room: i32 },
    HandleText { handle: i64, text: String },
    Run {
        handle: i64,
        inputs: Vec<DevicePtr>,
        input_count: i32,
        outputs: Vec<DevicePtr>,
        output_count: i32,
        /// None runs to completion.
        stream: Option<usize>,
    },
}

/// A call of the library: the function, the name that its failure is reported
/// under, and the arguments.
#[derive(Debug)]
pub struct GeCall {
    pub symbol: &'static str,
    pub op: &'static str,
    pub args: GeArgs,
}

impl GeCall {
    pub open spec fn is(&self, symbol: Seq<char>, op: Seq<char>) -> bool {
        self.symbol@ == symbol && self.op@ == op
    }
}

/// What came of a call.
#[derive(Debug)]
pub enum GeReply {
    /// The library could not be loaded.
    NoLibrary,
    /// The library has no such function.
    NoSymbol,
    Code(i32),
    Wide(i64),
    /// The count or code, and the axes that were written.
    Dims { code: i32, axes: Vec<i64> },
}

/// How many axes a caller of [`GeGraph::input_dims`] has room for.
pub const MAX_AXES: i32 = 16;

/// The error of a call that could not be made.
pub open spec fn link_error(reply: GeReply) -> Option<AclError> {
    match reply {
        GeReply::NoLibrary => Some(AclError { code: (-1) as i32, op: "ge load" }),
        GeReply::NoSymbol => Some(AclError { code: (-1) as i32, op: "ge dlsym" }),
        _ => None,
    }
}

/// Read the answer of a call that gives a code.
pub fn status(op: &'static str, reply: &GeReply) -> (r: Result<(), AclError>)
    requires
        link_error(*reply) is Some || reply is Code,
    ensures
        r == (match link_error(*reply) {
            Some(e) => Err::<(), AclError>(e),
            None => if reply->Code_0 == 0 {
                Ok(())
            } else {
                Err(AclError { code: reply->Code_0, op })
            },
        }),
{
    match reply {
        GeReply::NoLibrary => Err(AclError { code: -1, op: "ge load" }),
        GeReply::NoSymbol => Err(AclError { code: -1, op: "ge dlsym" }),
        GeReply::Code(rc) => if *rc != 0 {
            Err(AclError { code: *rc, op })
        } else {
            Ok(())
        },
        _ => Ok(()),
    }
}

/// Go on to the second of two calls where the first one succeeded.
pub fn and_next(op: &'static str, reply: &GeReply, second: GeCall) -> (r: Result<GeCall, AclError>)
    requires
        link_error(*reply) is Some || reply is Code,
    ensures
        match link_error(*reply) {
            Some(e) => r == Err::<GeCall, AclError>(e),
            None => if reply->Code_0 == 0 {
                r == Ok::<GeCall, AclError>(second)
            } else {
                r == Err::<GeCall, AclError>(AclError { code: reply->Code_0, op })
            },
        },
{
    match status(op, reply) {
        Ok(_) => Ok(second),
        Err(e) => Err(e),
    }
}

/// Read the answer of a call that counts inputs or outputs.
pub fn io_count(reply: &GeReply) -> (r: Result<usize, AclError>)
    requires
        link_error(*reply) is Some || reply is Code,
    ensures
        r == (match link_error(*reply) {
            Some(e) => Err::<usize, AclError>(e),
            None => if reply->Code_0 < 0 {
                Err(AclError { code: reply->Code_0, op: "io count" })
            } else {
                Ok(reply->Code_0 as usize)
            },
        }),
{
    match reply {
        GeReply::NoLibrary => Err(AclError { code: -1, op: "ge load" }),
        GeReply::NoSymbol => Err(AclError { code: -1, op: "ge dlsym" }),
        GeReply::Code(v) => if *v < 0 {
            Err(AclError { code: *v, op: "io count" })
        } else {
            Ok(*v as usize)
        },
        _ => Ok(0),
    }
}

/// Read the answer of a call that gives a size in bytes.
pub fn io_i64(reply: &GeReply) -> (r: Result<i64, AclError>)
    requires
        link_error(*reply) is Some || reply is Wide,
    ensures
        r == (match link_error(*reply) {
            Some(e) => Err::<i64, AclError>(e),
            None => if reply->Wide_0 < 0 {
                Err(AclError { code: reply->Wide_0 as i32, op: "io query" })
            } else {
                Ok(reply->Wide_0)
            },
        }),
{
    match reply {
        GeReply::NoLibrary => Err(AclError { code: -1, op: "ge load" }),
        GeReply::NoSymbol => Err(AclError { code: -1, op: "ge dlsym" }),
        GeReply::Wide(v) => if *v < 0 {
            let code: i32 = #[verifier::truncate]
            (*v as i32);
            Err(AclError { code, op: "io query" })
        } else {
            Ok(*v)
        },
        _ => Ok(0),
    }
}

/// Read the answer of a call that gives a size, as a size. The model reports sizes
/// with their alignment.
pub fn io_size(reply: &GeReply) -> (r: Result<usize, AclError>)
    requires
        link_error(*reply) is Some || reply is Wide,
    ensures
        r == (match link_error(*reply) {
            Some(e) => Err::<usize, AclError>(e),
            None => if reply->Wide_0 < 0 {
                Err(AclError { code: reply->Wide_0 as i32, op: "io query" })
            } else {
                Ok(reply->Wide_0 as usize)
            },
        }),
{
    match io_i64(reply) {
        Ok(v) => {
            let size: usize = #[verifier::truncate]
            (v as usize);
            Ok(size)
        },
        Err(e) => Err(e),
    }
}

/// Read the answer of a call that gives the axes of an input or output.
pub fn io_dims(reply: GeReply) -> (r: Result<Vec<i64>, AclError>)
    requires
        link_error(reply) is Some || reply is Dims,
        reply matches GeReply::Dims { code, axes } ==> code <= axes@.len(),
    ensures
        match link_error(reply) {
            Some(e) => r matches Err(f) && f == e,
            None => if reply->Dims_code < 0 {
                r matches Err(f) && f == (AclError { code: reply->Dims_code, op: "io dims" })
            } else {
                r matches Ok(dims) && dims@ == reply->axes@.take(reply->Dims_code as int)
            },
        },
{
    match reply {
        GeReply::NoLibrary => Err(AclError { code: -1, op: "ge load" }),
        GeReply::NoSymbol => Err(AclError { code: -1, op: "ge dlsym" }),
        GeReply::Dims { code, axes } => if code < 0 {
            Err(AclError { code, op: "io dims" })
        } else {
            let mut dims: Vec<i64> = Vec::new();
            let mut i: usize = 0;
            while i < code as usize
                invariant
                    0 <= code <= axes@.len(),
                    i <= code,
                    dims@ == axes@.take(i as int),
                decreases code - i,
            {
                dims.push(axes[i]);
                i = i + 1;
                assert(dims@ =~= axes@.take(i as int));
            }
            Ok(dims)
        },
        _ => Ok(Vec::new()),
    }
}

/// A text that can be handed to the library: it does not hold the character that
/// ends one.
pub open spec fn is_c_text(text: Seq<char>) -> bool {
    forall|i: int| 0 <= i < text.len() ==> #[trigger] text[i] != '\0'
}

fn owned(text: &str) -> (out: String)
    ensures
        out@ == text@,
{
    let mut out = String::new();
    out.append(text);
    assert(out@ =~= text@);
    out
}

fn owned_list(list: &[i64]) -> (out: Vec<i64>)
    ensures
        out@ == list@,
{
    let mut out: Vec<i64> = Vec::new();
    let mut i: usize = 0;
    while i < list.len()
        invariant
            i <= list@.len(),
            out@ == list@.take(i as int),
        decreases list@.len() - i,
    {
        out.push(list[i]);
        i = i + 1;
        assert(out@ =~= list@.take(i as int));
    }
    assert(list@.take(i as int) =~= list@);
    out
}

/// A length as the library takes it.
fn narrow(n: usize) -> (count: i32)
    ensures
        count == n as i32,
{
    #[verifier::truncate]
    (n as i32)
}

/// Start a building session for a chip.
pub fn init(soc_version: &str) -> (call: GeCall)
    requires
        is_c_text(soc_version@),
    ensures
        call.is("geb_init"@, "geb_init"@),
        call.args matches GeArgs::Text { text } && text@ == soc_version@,
{
    GeCall { symbol: "geb_init", op: "geb_init", args: GeArgs::Text { text: owned(soc_version) } }
}

/// End the session: every model is unloaded.
pub fn fini() -> (call: GeCall)
    ensures
        call.is("geb_fini"@, "geb_fini"@),
        call.args is Nothing,
{
    GeCall { symbol: "geb_fini", op: "geb_fini", args: GeArgs::Nothing }
}

/// Load a saved model, without a building session.
pub fn load(path: &str) -> (call: GeCall)
    requires
        is_c_text(path@),
    ensures
        call.is("geb_model_load"@, "geb_model_load"@),
        call.args matches GeArgs::Text { text } && text@ == path@,
{
    GeCall {
        symbol: "geb_model_load",
        op: "geb_model_load",
        args: GeArgs::Text { text: owned(path) },
    }
}

/// A model. It is built and run under one handle.
#[derive(Debug, Clone, Copy, PartialEq, Eq, Structural)]
pub struct GeGraph {
    pub handle: i64,
}

/// `name:d0,d1;name:d0,d1;...` for named shapes.
pub open spec fn shape_text(shapes: Seq<(Seq<char>, Seq<i64>)>) -> Seq<char>
    decreases shapes.len(),
{
    if shapes.len() == 0 {
        seq![]
    } else {
        let (name, dims) = shapes.last();
        let one = name + ":"@ + separated(dims, ","@);
        if shapes.len() == 1 {
            one
        } else {
            shape_text(shapes.drop_last()) + ";"@ + one
        }
    }
}

/// The text of named shapes reads from the front: a name, a colon and its axes with commas
/// between them, and then, after a semicolon, the shapes that follow.
pub proof fn lemma_shape_text(shapes: Seq<(Seq<char>, Seq<i64>)>)
    ensures
        shape_text(Seq::empty()) == Seq::<char>::empty(),
        shapes.len() == 1 ==> shape_text(shapes) == shapes[0].0 + ":"@ + separated(
            shapes[0].1,
            ","@,
        ),
        shapes.len() > 1 ==> shape_text(shapes) == shapes[0].0 + ":"@ + separated(
            shapes[0].1,
            ","@,
        ) + ";"@ + shape_text(shapes.skip(1)),
    decreases shapes.len(),
{
    reveal_with_fuel(shape_text, 2);
    if shapes.len() > 2 {
        let front = shapes.drop_last();
        lemma_shape_text(front);
        assert(shapes.skip(1).drop_last() =~= front.skip(1));
        assert(shapes.skip(1).last() == shapes.last());
        assert(shape_text(shapes) =~= shapes[0].0 + ":"@ + separated(shapes[0].1, ","@) + ";"@
            + shape_text(shapes.skip(1)));
    } else if shapes.len() == 2 {
        assert(shapes.drop_last().len() == 1 && shapes.drop_last()[0] == shapes[0]);
        assert(shapes.skip(1).len() == 1 && shapes.skip(1)[0] == shapes.last());
    }
}

/// Named shapes.
pub open spec fn shapes_of(shapes: Seq<(&str, &[i64])>) -> Seq<(Seq<char>, Seq<i64>)> {
    Seq::new(shapes.len(), |i: int| (shapes[i].0@, shapes[i].1@))
}

/// Names.
pub open spec fn names_of(names: Seq<&str>) -> Seq<Seq<char>> {
    Seq::new(names.len(), |i: int| names[i]@)
}

/// What a list of strings says.
pub open spec fn texts_of(names: Seq<String>) -> Seq<Seq<char>> {
    Seq::new(names.len(), |i: int| names[i]@)
}

/// Where buffers are.
pub open spec fn pointers(buffers: Seq<&DeviceBuffer>) -> Seq<DevicePtr> {
    Seq::new(
        buffers.len(),
        |i: int| DevicePtr { base: buffers[i].base, offset: buffers[i].offset },
    )
}

fn buffer_pointers(buffers: &[&DeviceBuffer]) -> (list: Vec<DevicePtr>)
    ensures
        list@ == pointers(buffers@),
{
    let mut list: Vec<DevicePtr> = Vec::new();
    let mut i: usize = 0;
    while i < buffers.len()
        invariant
            i <= buffers@.len(),
            list@ == pointers(buffers@).take(i as int),
        decreases buffers@.len() - i,
    {
        list.push(buffers[i].as_ptr());
        i = i + 1;
        assert(list@ =~= pointers(buffers@).take(i as int));
    }
    assert(list@ =~= pointers(buffers@));
    list
}

impl GeGraph {
    /// Begin a model, which then takes nodes, options, attributes and links.
    pub fn begin(name: &str) -> (call: GeCall)
        requires
            is_c_text(name@),
        ensures
            call.is("geb_model_begin"@, "geb_model_begin"@),
            call.args matches GeArgs::Text { text } && text@ == name@,
    {
        GeCall {
            symbol: "geb_model_begin",
            op: "geb_model_begin",
            args: GeArgs::Text { text: owned(name) },
        }
    }

    /// Read the answer of a call that begins or loads a model.
    pub fn opened(op: &'static str, reply: &GeReply) -> (r: Result<GeGraph, AclError>)
        requires
            link_error(*reply) is Some || reply is Wide,
        ensures
            r == (match link_error(*reply) {
                Some(e) => Err::<GeGraph, AclError>(e),
                None => if reply->Wide_0 < 0 {
                    Err(AclError { code: reply->Wide_0 as i32, op })
                } else {
                    Ok(GeGraph { handle: reply->Wide_0 })
                },
            }),
    {
        match reply {
            GeReply::NoLibrary => Err(AclError { code: -1, op: "ge load" }),
            GeReply::NoSymbol => Err(AclError { code: -1, op: "ge dlsym" }),
            GeReply::Wide(h) => if *h < 0 {
                let code: i32 = #[verifier::truncate]
                (*h as i32);
                Err(AclError { code, op })
            } else {
                Ok(GeGraph { handle: *h })
            },
            _ => Ok(GeGraph { handle: 0 }),
        }
    }

    /// Set a build option.
    pub fn set_option(&self, key: &str, value: &str) -> (call: GeCall)
        requires
            is_c_text(key@),
            is_c_text(value@),
        ensures
            call.is("geb_set_option"@, "geb_set_option"@),
            call.args matches GeArgs::Texts { first, second } && first@ == key@ && second@
                == value@,
    {
        GeCall {
            symbol: "geb_set_option",
            op: "geb_set_option",
            args: GeArgs::Texts { first: owned(key), second: owned(value) },
        }
    }

    /// Say that the inputs are plain arrays of these shapes: two options, to be set in
    /// this order, the second only where the first was set (see [`and_next`]).
    pub fn set_nd_input_shape(&self, shapes: &[(&str, &[i64])]) -> (calls: (GeCall, GeCall))
        requires
            forall|i: int| 0 <= i < shapes@.len() ==> is_c_text(#[trigger] shapes@[i].0@),
        ensures
            calls.0.is("geb_set_option"@, "geb_set_option"@),
            calls.0.args matches GeArgs::Texts { first, second } && first@ == "input_format"@
                && second@ == "ND"@,
            calls.1.is("geb_set_option"@, "geb_set_option"@),
            calls.1.args matches GeArgs::Texts { first, second } && first@ == "input_shape"@
                && second@ == shape_text(shapes_of(shapes@)),
    {
        let ghost all = shapes_of(shapes@);
        let mut text = String::new();
        let mut i: usize = 0;
        assert(text@ =~= shape_text(all.take(0)));
        while i < shapes.len()
            invariant
                i <= shapes@.len(),
                all == shapes_of(shapes@),
                text@ == shape_text(all.take(i as int)),
            decreases shapes@.len() - i,
        {
            let ghost done = all.take(i as int);
            let ghost more = all.take(i + 1);
            if i > 0 {
                text.append(";");
            }
            let (name, dims) = shapes[i];
            text.append(name);
            text.append(":");
            append_separated(&mut text, dims, ",");
            proof {
                assert(more.drop_last() =~= done);
                assert(more.last() == (name@, dims@));
                assert(text@ =~= shape_text(more));
            }
            i = i + 1;
        }
        assert(all.take(i as int) =~= all);
        let format = GeCall {
            symbol: "geb_set_option",
            op: "geb_set_option",
            args: GeArgs::Texts { first: owned("input_format"), second: owned("ND") },
        };
        let shape = GeCall {
            symbol: "geb_set_option",
            op: "geb_set_option",
            args: GeArgs::Texts { first: owned("input_shape"), second: text },
        };
        (format, shape)
    }

    /// Add an input node.
    pub fn add_data(&self, name: &str, index: i64, dims: &[i64], dtype: Dtype) -> (call: GeCall)
        requires
            is_c_text(name@),
        ensures
            call.is("geb_add_data"@, "geb_add_data"@),
            call.args matches GeArgs::Data { name: n, input, dims: d, rank, dtype: t } && n@
                == name@ && input == index && d@ == dims@ && rank == dims@.len() as i32 && t@
                == dtype_name(dtype),
    {
        GeCall {
            symbol: "geb_add_data",
            op: "geb_add_data",
            args: GeArgs::Data {
                name: owned(name),
                input: index,
                dims: owned_list(dims),
                rank: narrow(dims.len()),
                dtype: dtype.as_c(),
            },
        }
    }

    /// Add an operator node of a registered kind.
    pub fn add_op(&self, name: &str, ty: &str) -> (call: GeCall)
        requires
            is_c_text(name@),
            is_c_text(ty@),
        ensures
            call.is("geb_add_op"@, "geb_add_op"@),
            call.args matches GeArgs::Texts { first, second } && first@ == name@ && second@ == ty@,
    {
        GeCall {
            symbol: "geb_add_op",
            op: "geb_add_op",
            args: GeArgs::Texts { first: owned(name), second: owned(ty) },
        }
    }

    fn set_desc(
        &self,
        symbol: &'static str,
        op_name: &str,
        port: &str,
        dims: &[i64],
        dtype: Dtype,
    ) -> (call: GeCall)
        requires
            is_c_text(op_name@),
            is_c_text(port@),
        ensures
            call.is(symbol@, symbol@),
            call.args matches GeArgs::Desc { node, port: p, dims: d, rank, dtype: t } && node@
                == op_name@ && p@ == port@ && d@ == dims@ && rank == dims@.len() as i32 && t@
                == dtype_name(dtype),
    {
        GeCall {
            symbol,
            op: symbol,
            args: GeArgs::Desc {
                node: owned(op_name),
                port: owned(port),
                dims: owned_list(dims),
                rank: narrow(dims.len()),
                dtype: dtype.as_c(),
            },
        }
    }

    /// Describe an input of a node.
    pub fn set_input_desc(&self, op: &str, port: &str, dims: &[i64], dtype: Dtype) -> (call: GeCall)
        requires
            is_c_text(op@),
            is_c_text(port@),
        ensures
            call.is("geb_set_input_desc"@, "geb_set_input_desc"@),
            call.args matches GeArgs::Desc { node, port: p, dims: d, rank, dtype: t } && node@
                == op@ && p@ == port@ && d@ == dims@ && rank == dims@.len() as i32 && t@
                == dtype_name(dtype),
    {
        self.set_desc("geb_set_input_desc", op, port, dims, dtype)
    }

    /// Describe an output of a node.
    pub fn set_output_desc(&self, op: &str, port: &str, dims: &[i64], dtype: Dtype) -> (call: GeCall)
        requires
            is_c_text(op@),
            is_c_text(port@),
        ensures
            call.is("geb_set_output_desc"@, "geb_set_output_desc"@),
            call.args matches GeArgs::Desc { node, port: p, dims: d, rank, dtype: t } && node@
                == op@ && p@ == port@ && d@ == dims@ && rank == dims@.len() as i32 && t@
                == dtype_name(dtype),
    {
        self.set_desc("geb_set_output_desc", op, port, dims, dtype)
    }

    /// Set a flag attribute.
    pub fn set_attr_bool(&self, op: &str, attr: &str, v: bool) -> (call: GeCall)
        requires
            is_c_text(op@),
            is_c_text(attr@),
        ensures
            call.is("geb_set_attr_bool"@, "geb_set_attr_bool"@),
            call.args matches GeArgs::Flag { node, attr: a, flag } && node@ == op@ && a@ == attr@
                && flag == (if v {
                1i32
            } else {
                0i32
            }),
    {
        let flag: i32 = if v {
            1
        } else {
            0
        };
        GeCall {
            symbol: "geb_set_attr_bool",
            op: "geb_set_attr_bool",
            args: GeArgs::Flag { node: owned(op), attr: owned(attr), flag },
        }
    }

    /// Set an integer attribute.
    pub fn set_attr_int(&self, op: &str, attr: &str, v: i64) -> (call: GeCall)
        requires
            is_c_text(op@),
            is_c_text(attr@),
        ensures
            call.is("geb_set_attr_int"@, "geb_set_attr_int"@),
            call.args matches GeArgs::Integer { node, attr: a, value } && node@ == op@ && a@
                == attr@ && value == v,
    {
        GeCall {
            symbol: "geb_set_attr_int",
            op: "geb_set_attr_int",
            args: GeArgs::Integer { node: owned(op), attr: owned(attr), value: v },
        }
    }

    /// Set a real attribute, a double-precision pattern.
    pub fn set_attr_float(&self, op: &str, attr: &str, v: u64) -> (call: GeCall)
        requires
            is_c_text(op@),
            is_c_text(attr@),
        ensures
            call.is("geb_set_attr_float"@, "geb_set_attr_float"@),
            call.args matches GeArgs::Real { node, attr: a, bits } && node@ == op@ && a@ == attr@
                && bits == v,
    {
        GeCall {
            symbol: "geb_set_attr_float",
            op: "geb_set_attr_float",
            args: GeArgs::Real { node: owned(op), attr: owned(attr), bits: v },
        }
    }

    /// Set a text attribute.
    pub fn set_attr_str(&self, op: &str, attr: &str, v: &str) -> (call: GeCall)
        requires
            is_c_text(op@),
            is_c_text(attr@),
            is_c_text(v@),
        ensures
            call.is("geb_set_attr_str"@, "geb_set_attr_str"@),
            call.args matches GeArgs::ThreeTexts { first, second, third } && first@ == op@
                && second@ == attr@ && third@ == v@,
    {
        GeCall {
            symbol: "geb_set_attr_str",
            op: "geb_set_attr_str",
            args: GeArgs::ThreeTexts { first: owned(op), second: owned(attr), third: owned(v) },
        }
    }

    /// Set a list attribute.
    pub fn set_attr_int_list(&self, op: &str, attr: &str, v: &[i64]) -> (call: GeCall)
        requires
            is_c_text(op@),
            is_c_text(attr@),
        ensures
            call.is("geb_set_attr_int_list"@, "geb_set_attr_int_list"@),
            call.args matches GeArgs::Integers { node, attr: a, values, count } && node@ == op@
                && a@ == attr@ && values@ == v@ && count == v@.len() as i32,
    {
        GeCall {
            symbol: "geb_set_attr_int_list",
            op: "geb_set_attr_int_list",
            args: GeArgs::Integers {
                node: owned(op),
                attr: owned(attr),
                values: owned_list(v),
                count: narrow(v.len()),
            },
        }
    }

    /// Wire the output of `src` to an input of `dst`.
    pub fn link(&self, dst: &str, port: &str, src: &str) -> (call: GeCall)
        requires
            is_c_text(dst@),
            is_c_text(port@),
            is_c_text(src@),
        ensures
            call.is("geb_link"@, "geb_link"@),
            call.args matches GeArgs::ThreeTexts { first, second, third } && first@ == dst@
                && second@ == port@ && third@ == src@,
    {
        GeCall {
            symbol: "geb_link",
            op: "geb_link",
            args: GeArgs::ThreeTexts { first: owned(dst), second: owned(port), third: owned(src) },
        }
    }

    fn name_list(&self, symbol: &'static str, names: &[&str]) -> (call: GeCall)
        requires
            forall|i: int| 0 <= i < names@.len() ==> is_c_text(#[trigger] names@[i]@),
        ensures
            call.is(symbol@, symbol@),
            call.args matches GeArgs::Names { names: list, count } && texts_of(list@) == names_of(
                names@,
            ) && count == names@.len() as i32,
    {
        let mut list: Vec<String> = Vec::new();
        let mut i: usize = 0;
        while i < names.len()
            invariant
                i <= names@.len(),
                list@.len() == i,
                forall|j: int| 0 <= j < i ==> (#[trigger] list@[j])@ == names@[j]@,
            decreases names@.len() - i,
        {
            list.push(owned(names[i]));
            i = i + 1;
        }
        assert(texts_of(list@) =~= names_of(names@));
        GeCall { symbol, op: symbol, args: GeArgs::Names { names: list, count: narrow(names.len()) } }
    }

    /// Say which nodes are the model's inputs, in the order in which they are bound.
    pub fn graph_inputs(&self, names: &[&str]) -> (call: GeCall)
        requires
            forall|i: int| 0 <= i < names@.len() ==> is_c_text(#[trigger] names@[i]@),
        ensures
            call.is("geb_graph_inputs"@, "geb_graph_inputs"@),
            call.args matches GeArgs::Names { names: list, count } && texts_of(list@) == names_of(
                names@,
            ) && count == names@.len() as i32,
    {
        self.name_list("geb_graph_inputs", names)
    }

    /// Say which nodes are the model's outputs.
    pub fn graph_outputs(&self, names: &[&str]) -> (call: GeCall)
        requires
            forall|i: int| 0 <= i < names@.len() ==> is_c_text(#[trigger] names@[i]@),
        ensures
            call.is("geb_graph_outputs"@, "geb_graph_outputs"@),
            call.args matches GeArgs::Names { names: list, count } && texts_of(list@) == names_of(
                names@,
            ) && count == names@.len() as i32,
    {
        self.name_list("geb_graph_outputs", names)
    }

    /// Compile the model and load it.
    pub fn build(&self) -> (call: GeCall)
        ensures
            call.is("geb_model_build"@, "geb_model_build"@),
            call.args == (GeArgs::Handle { handle: self.handle }),
    {
        GeCall {
            symbol: "geb_model_build",
            op: "geb_model_build",
            args: GeArgs::Handle { handle: self.handle },
        }
    }

    /// How many inputs the model has, to be read by [`io_count`].
    pub fn num_inputs(&self) -> (call: GeCall)
        ensures
            call.is("geb_num_inputs"@, "io count"@),
            call.args == (GeArgs::Handle { handle: self.handle }),
    {
        GeCall {
            symbol: "geb_num_inputs",
            op: "io count",
            args: GeArgs::Handle { handle: self.handle },
        }
    }

    /// How many outputs the model has, to be read by [`io_count`].
    pub fn num_outputs(&self) -> (call: GeCall)
        ensures
            call.is("geb_num_outputs"@, "io count"@),
            call.args == (GeArgs::Handle { handle: self.handle }),
    {
        GeCall {
            symbol: "geb_num_outputs",
            op: "io count",
            args: GeArgs::Handle { handle: self.handle },
        }
    }

    /// The size of an input, to be read by [`io_size`].
    pub fn input_size(&self, idx: usize) -> (call: GeCall)
        ensures
            call.is("geb_input_size"@, "io query"@),
            call.args == (GeArgs::Port { handle: self.handle, index: idx as i32 }),
    {
        GeCall {
            symbol: "geb_input_size",
            op: "io query",
            args: GeArgs::Port { handle: self.handle, index: narrow(idx) },
        }
    }

    /// The size of an output, to be read by [`io_size`].
    pub fn output_size(&self, idx: usize) -> (call: GeCall)
        ensures
            call.is("geb_output_size"@, "io query"@),
            call.args == (GeArgs::Port { handle: self.handle, index: idx as i32 }),
    {
        GeCall {
            symbol: "geb_output_size",
            op: "io query",
            args: GeArgs::Port { handle: self.handle, index: narrow(idx) },
        }
    }

    /// The axes of an input, to be read by [`io_dims`].
    pub fn input_dims(&self, idx: usize) -> (call: GeCall)
        ensures
            call.is("geb_input_dims"@, "io dims"@),
            call.args == (GeArgs::PortDims {
                handle: self.handle,
                index: idx as i32,
                room: MAX_AXES,
            }),
    {
        GeCall {
            symbol: "geb_input_dims",
            op: "io dims",
            args: GeArgs::PortDims { handle: self.handle, index: narrow(idx), room: MAX_AXES },
        }
    }

    /// The axes of an output, to be read by [`io_dims`].
    pub fn output_dims(&self, idx: usize) -> (call: GeCall)
        ensures
            call.is("geb_output_dims"@, "io dims"@),
            call.args == (GeArgs::PortDims {
                handle: self.handle,
                index: idx as i32,
                room: MAX_AXES,
            }),
    {
        GeCall {
            symbol: "geb_output_dims",
            op: "io dims",
            args: GeArgs::PortDims { handle: self.handle, index: narrow(idx), room: MAX_AXES },
        }
    }

    /// Run the model on a stream.
    pub fn run(
        &self,
        inputs: &[&DeviceBuffer],
        outputs: &[&DeviceBuffer],
        stream: &AscendStream,
    ) -> (call: GeCall)
        ensures
            call.is("geb_run"@, "geb_run"@),
            call.args matches GeArgs::Run {
                handle,
                inputs: ins,
                input_count,
                outputs: outs,
                output_count,
                stream: s,
            } && handle == self.handle && ins@ == pointers(inputs@) && input_count
                == inputs@.len() as i32 && outs@ == pointers(outputs@) && output_count
                == outputs@.len() as i32 && s == Some(stream.raw),
    {
        let ins = buffer_pointers(inputs);
        let outs = buffer_pointers(outputs);
        self.run_raw(ins, outs, Some(stream.handle()))
    }

    /// Run the model to completion.
    pub fn run_sync(&self, inputs: &[&DeviceBuffer], outputs: &[&DeviceBuffer]) -> (call: GeCall)
        ensures
            call.is("geb_run"@, "geb_run"@),
            call.args matches GeArgs::Run {
                handle,
                inputs: ins,
                input_count,
                outputs: outs,
                output_count,
                stream: s,
            } && handle == self.handle && ins@ == pointers(inputs@) && input_count
                == inputs@.len() as i32 && outs@ == pointers(outputs@) && output_count
                == outputs@.len() as i32 && s is None,
    {
        let ins = buffer_pointers(inputs);
        let outs = buffer_pointers(outputs);
        self.run_raw(ins, outs, None)
    }

    /// Run the model on addresses.
    pub fn run_raw(
        &self,
        inputs: Vec<DevicePtr>,
        outputs: Vec<DevicePtr>,
        stream: Option<usize>,
    ) -> (call: GeCall)
        ensures
            call.is("geb_run"@, "geb_run"@),
            call.args == (GeArgs::Run {
                handle: self.handle,
                inputs,
                input_count: inputs@.len() as i32,
                outputs,
                output_count: outputs@.len() as i32,
                stream,
            }),
    {
        let input_count: i32 = narrow(inputs.len());
        let output_count: i32 = narrow(outputs.len());
        GeCall {
            symbol: "geb_run",
            op: "geb_run",
            args: GeArgs::Run {
                handle: self.handle,
                inputs,
                input_count,
                outputs,
                output_count,
                stream,
            },
        }
    }

    /// Save the compiled model.
    pub fn save(&self, path: &str) -> (call: GeCall)
        requires
            is_c_text(path@),
        ensures
            call.is("geb_model_save"@, "geb_model_save"@),
            call.args matches GeArgs::HandleText { handle, text } && handle == self.handle && text@
                == path@,
    {
        GeCall {
            symbol: "geb_model_save",
            op: "geb_model_save",
            args: GeArgs::HandleText { handle: self.handle, text: owned(path) },
        }
    }

    /// Unload the model.
    pub fn unload(&self) -> (call: GeCall)
        ensures
            call.is("geb_model_unload"@, "geb_model_unload"@),
            call.args == (GeArgs::Handle { handle: self.handle }),
    {
        GeCall {
            symbol: "geb_model_unload",
            op: "geb_model_unload",
            args: GeArgs::Handle { handle: self.handle },
        }
    }
}

} // verus!
