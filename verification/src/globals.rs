//! The builtin library surface: the script-facing entry points of the
//! bitmap, worker, channel and reflection builtins. Each coerces its
//! script-value arguments, performs the operation on the verified core,
//! and hands a script value back — from the caller's side there is no
//! difference between these and bytecode-backed methods.

use vstd::prelude::*;
use vstd::string::StringSliceAdditionalSpecFns;
use crate::value::{Value, ObjId, StringTable, to_i32, to_u32, to_boolean, spec_to_i32,
    spec_to_u32, spec_to_boolean, spec_is_object};
use crate::property::{QName, NameId, ClassId, Property};
use crate::class::{ClassDef, TraitDecl, TraitKind, ClassError, ClassRegistry};
use crate::bitmap_data::{BitmapData, spec_fill_rect_post, spec_copy_pixels_post};
use crate::runtime::{Avm, AvmError};
use crate::heap::{HeapObject, ObjKind};
use crate::worker::{WorkerDomain, WorkerId};
use crate::channel::MessageChannelObject;

verus! {

/// Whether a bitmap of the given size may be constructed: the legacy
/// player caps each side at 2880 pixels up to container version 9, and
/// from version 10 on caps the sides at 8191 and the pixel count at
/// 16777215.
pub open spec fn spec_is_size_valid(swf_version: u8, width: int, height: int) -> bool {
    if swf_version <= 9 {
        0 < width <= 2880 && 0 < height <= 2880
    } else {
        0 < width <= 8191 && 0 < height <= 8191 && width * height <= 16_777_215
    }
}

pub fn is_size_valid(swf_version: u8, width: u32, height: u32) -> (r: bool)
    ensures
        r == spec_is_size_valid(swf_version, width as int, height as int),
{
    if swf_version <= 9 {
        0 < width && width <= 2880 && 0 < height && height <= 2880
    } else {
        if 0 < width && width <= 8191 && 0 < height && height <= 8191 {
            proof {
                vstd::arithmetic::mul::lemma_mul_upper_bound(width as int, 8191,
                    height as int, 8191);
            }
            (width as u64) * (height as u64) <= 16_777_215
        } else {
            false
        }
    }
}

/// The bitmap class's class initializer: it does nothing.
pub fn class_init() -> (r: Value)
    ensures
        r == Value::Undefined,
{
    Value::Undefined
}

/// The bitmap constructor: width and height coerced from the first two
/// arguments, transparency from the third (true when absent, and true for
/// any object, as every object is truthy), the fill color from the fourth
/// (opaque white when absent). An object among the numeric arguments
/// would need its primitive hook and is a type error; an invalid size for
/// the container version is an error.
pub fn instance_init(tbl: &StringTable, args: &Vec<Value>, swf_version: u8)
    -> (r: Result<BitmapData, AvmError>)
    ensures
        ({
            let w = spec_to_u32(tbl.spec_strings(), spec_arg(args@, 0));
            let h = spec_to_u32(tbl.spec_strings(), spec_arg(args@, 1));
            let t = spec_to_boolean(tbl.spec_strings(),
                if args@.len() > 2 { args@[2] } else { Value::Boolean(true) });
            let fill = spec_to_u32(tbl.spec_strings(),
                if args@.len() > 3 { args@[3] } else { Value::Unsigned(0xFFFF_FFFF) });
            match r {
                Ok(bd) => {
                    &&& !spec_is_object(spec_arg(args@, 0))
                    &&& !spec_is_object(spec_arg(args@, 1))
                    &&& !spec_is_object(spec_arg(args@, 3))
                    &&& spec_is_size_valid(swf_version, w as int, h as int)
                    &&& bd.spec_width() == w
                    &&& bd.spec_height() == h
                    &&& bd.spec_transparency() == t
                    &&& !bd.spec_disposed()
                    &&& bd.wf()
                    &&& forall|i: int| 0 <= i < bd.spec_pixels().len()
                        ==> bd.spec_pixels()[i]
                            == crate::bitmap::Color(fill).to_premultiplied_spec(t)
                },
                Err(AvmError::Unsupported) => !spec_is_size_valid(swf_version, w as int,
                    h as int)
                    && !spec_is_object(spec_arg(args@, 0))
                    && !spec_is_object(spec_arg(args@, 1))
                    && !spec_is_object(spec_arg(args@, 3)),
                Err(AvmError::TypeError { .. }) => spec_is_object(spec_arg(args@, 0))
                    || spec_is_object(spec_arg(args@, 1))
                    || spec_is_object(spec_arg(args@, 3)),
                Err(_) => false,
            }
        }),
{
    let a0 = arg(args, 0);
    let a1 = arg(args, 1);
    let a2 = arg_or(args, 2, Value::Boolean(true));
    let a3 = arg_or(args, 3, Value::Unsigned(0xFFFF_FFFF));
    match (a0, a1, a3) {
        (Value::Object(_), _, _) => {
            proof {
                assert(spec_is_object(spec_arg(args@, 0)));
            }
            Err(AvmError::TypeError { name: 0 })
        },
        (_, Value::Object(_), _) => {
            proof {
                assert(spec_is_object(spec_arg(args@, 1)));
            }
            Err(AvmError::TypeError { name: 0 })
        },
        (_, _, Value::Object(_)) => {
            proof {
                assert(spec_is_object(spec_arg(args@, 3)));
            }
            Err(AvmError::TypeError { name: 0 })
        },
        _ => {
            let width = to_u32(tbl, &a0);
            let height = to_u32(tbl, &a1);
            let transparency = to_boolean(tbl, &a2);
            let fill_color = to_u32(tbl, &a3);
            if !is_size_valid(swf_version, width, height) {
                return Err(AvmError::Unsupported);
            }
            proof {
                vstd::arithmetic::mul::lemma_mul_upper_bound(width as int, 8191,
                    height as int, 8191);
            }
            Ok(BitmapData::new(width, height, transparency, fill_color))
        },
    }
}

/// The argument at the index, or undefined past the end.
pub open spec fn spec_arg(args: Seq<Value>, i: int) -> Value {
    if 0 <= i < args.len() {
        args[i]
    } else {
        Value::Undefined
    }
}

fn arg(args: &Vec<Value>, i: usize) -> (r: Value)
    ensures
        r == spec_arg(args@, i as int),
{
    if i < args.len() {
        args[i]
    } else {
        Value::Undefined
    }
}

fn arg_or(args: &Vec<Value>, i: usize, dflt: Value) -> (r: Value)
    ensures
        r == (if i < args.len() {
            args@[i as int]
        } else {
            dflt
        }),
{
    if i < args.len() {
        args[i]
    } else {
        dflt
    }
}

/// The bitmap's width, as the width getter reports it.
pub fn width(bd: &BitmapData) -> (r: Value)
    requires
        bd.spec_width() <= 0x7FFF_FFFF,
    ensures
        r == Value::Integer(bd.spec_width() as i32),
{
    Value::Integer(bd.width() as i32)
}

/// The bitmap's height, as the height getter reports it.
pub fn height(bd: &BitmapData) -> (r: Value)
    requires
        bd.spec_height() <= 0x7FFF_FFFF,
    ensures
        r == Value::Integer(bd.spec_height() as i32),
{
    Value::Integer(bd.height() as i32)
}

/// Whether the bitmap has an alpha channel, as the transparent getter
/// reports it.
pub fn transparent(bd: &BitmapData) -> (r: Value)
    ensures
        r == Value::Boolean(bd.spec_transparency()),
{
    Value::Boolean(bd.transparency())
}

/// Reads a pixel as the script method does: the coordinates coerced from
/// the arguments, the unmultiplied color without its alpha channel, and 0
/// outside the bitmap. An object argument would need its primitive hook
/// and is a type error.
pub fn get_pixel(bd: &BitmapData, tbl: &StringTable, args: &Vec<Value>)
    -> (r: Result<Value, AvmError>)
    requires
        bd.wf(),
    ensures
        ({
            let x = spec_to_i32(tbl.spec_strings(), spec_arg(args@, 0));
            let y = spec_to_i32(tbl.spec_strings(), spec_arg(args@, 1));
            match r {
                Ok(v) => !spec_is_object(spec_arg(args@, 0))
                    && !spec_is_object(spec_arg(args@, 1))
                    && v == Value::Unsigned(bd.spec_get_pixel(x as int, y as int)),
                Err(AvmError::TypeError { .. }) => spec_is_object(spec_arg(args@, 0))
                    || spec_is_object(spec_arg(args@, 1)),
                Err(_) => false,
            }
        }),
{
    let a0 = arg(args, 0);
    let a1 = arg(args, 1);
    match (a0, a1) {
        (Value::Object(_), _) | (_, Value::Object(_)) => Err(AvmError::TypeError { name: 0 }),
        _ => {
            let x = to_i32(tbl, &a0);
            let y = to_i32(tbl, &a1);
            Ok(Value::Unsigned(bd.get_pixel(x, y)))
        },
    }
}

/// The draw method: compositing another drawable through the renderer is
/// not supported by this engine, and the call performs nothing, as the
/// legacy player's stub did.
pub fn draw() -> (r: Value)
    ensures
        r == Value::Undefined,
{
    Value::Undefined
}

/// The lock method: this engine syncs pixels eagerly, so locking performs
/// nothing.
pub fn lock() -> (r: Value)
    ensures
        r == Value::Undefined,
{
    Value::Undefined
}

/// The unlock method: this engine syncs pixels eagerly, so unlocking
/// performs nothing.
pub fn unlock() -> (r: Value)
    ensures
        r == Value::Undefined,
{
    Value::Undefined
}

/// Fills a rectangle as the script method does: the rectangle's corner
/// and size coerced from the first four arguments and the color from the
/// fifth. A call without the color argument performs nothing at all —
/// the method ignores it, leaving the bitmap unchanged. Object arguments
/// would need their primitive hooks and are a type error.
pub fn fill_rect(bd: &mut BitmapData, tbl: &StringTable, args: &Vec<Value>)
    -> (r: Result<Value, AvmError>)
    requires
        old(bd).wf(),
        !(old(bd).spec_dirty_state() is GpuModified),
    ensures
        ({
            let x = spec_to_u32(tbl.spec_strings(), spec_arg(args@, 0));
            let y = spec_to_u32(tbl.spec_strings(), spec_arg(args@, 1));
            let w = spec_to_u32(tbl.spec_strings(), spec_arg(args@, 2));
            let h = spec_to_u32(tbl.spec_strings(), spec_arg(args@, 3));
            let c = spec_to_u32(tbl.spec_strings(), spec_arg(args@, 4));
            match r {
                Ok(v) => v == Value::Undefined && final(bd).wf()
                    && if args@.len() < 5 {
                        *final(bd) == *old(bd)
                    } else {
                        spec_fill_rect_post(*old(bd), *final(bd), x, y, w, h, c)
                    },
                Err(AvmError::TypeError { .. }) => args@.len() >= 5
                    && (exists|i: int| 0 <= i < 5
                        && spec_is_object(#[trigger] spec_arg(args@, i)))
                    && *final(bd) == *old(bd),
                Err(_) => false,
            }
        }),
{
    if args.len() < 5 {
        return Ok(Value::Undefined);
    }
    let a0 = arg(args, 0);
    let a1 = arg(args, 1);
    let a2 = arg(args, 2);
    let a3 = arg(args, 3);
    let a4 = arg(args, 4);
    match (a0, a1, a2, a3, a4) {
        (Value::Object(_), _, _, _, _) => {
            proof {
                assert(spec_is_object(spec_arg(args@, 0)));
            }
            Err(AvmError::TypeError { name: 0 })
        },
        (_, Value::Object(_), _, _, _) => {
            proof {
                assert(spec_is_object(spec_arg(args@, 1)));
            }
            Err(AvmError::TypeError { name: 0 })
        },
        (_, _, Value::Object(_), _, _) => {
            proof {
                assert(spec_is_object(spec_arg(args@, 2)));
            }
            Err(AvmError::TypeError { name: 0 })
        },
        (_, _, _, Value::Object(_), _) => {
            proof {
                assert(spec_is_object(spec_arg(args@, 3)));
            }
            Err(AvmError::TypeError { name: 0 })
        },
        (_, _, _, _, Value::Object(_)) => {
            proof {
                assert(spec_is_object(spec_arg(args@, 4)));
            }
            Err(AvmError::TypeError { name: 0 })
        },
        _ => {
            let x = to_u32(tbl, &a0);
            let y = to_u32(tbl, &a1);
            let w = to_u32(tbl, &a2);
            let h = to_u32(tbl, &a3);
            let c = to_u32(tbl, &a4);
            bd.fill_rect(x, y, w, h, c);
            Ok(Value::Undefined)
        },
    }
}

/// Copies pixels between bitmaps as the script method does: source
/// rectangle and destination point coerced from the arguments. Copying a
/// bitmap onto itself is handled by the caller cloning the source first,
/// as the legacy player's callers did.
pub fn copy_pixels(bd: &mut BitmapData, source: &BitmapData, tbl: &StringTable,
    src_x: &Value, src_y: &Value, src_w: &Value, src_h: &Value, dest_x: &Value,
    dest_y: &Value, merge_alpha: bool) -> (r: Result<Value, AvmError>)
    requires
        old(bd).wf(),
        source.wf(),
        !(old(bd).spec_dirty_state() is GpuModified),
    ensures
        ({
            let tb = tbl.spec_strings();
            match r {
                Ok(v) => v == Value::Undefined && final(bd).wf()
                    && spec_copy_pixels_post(*old(bd), *source, *final(bd),
                        spec_to_i32(tb, *src_x), spec_to_i32(tb, *src_y),
                        spec_to_i32(tb, *src_w), spec_to_i32(tb, *src_h),
                        spec_to_i32(tb, *dest_x), spec_to_i32(tb, *dest_y),
                        None, 0, 0, merge_alpha),
                Err(AvmError::TypeError { .. }) => (spec_is_object(*src_x)
                    || spec_is_object(*src_y) || spec_is_object(*src_w)
                    || spec_is_object(*src_h) || spec_is_object(*dest_x)
                    || spec_is_object(*dest_y)) && *final(bd) == *old(bd),
                Err(_) => false,
            }
        }),
{
    match (src_x, src_y, src_w, src_h, dest_x, dest_y) {
        (Value::Object(_), _, _, _, _, _) | (_, Value::Object(_), _, _, _, _)
            | (_, _, Value::Object(_), _, _, _) | (_, _, _, Value::Object(_), _, _)
            | (_, _, _, _, Value::Object(_), _) | (_, _, _, _, _, Value::Object(_)) => {
            Err(AvmError::TypeError { name: 0 })
        },
        _ => {
            let sx = to_i32(tbl, src_x);
            let sy = to_i32(tbl, src_y);
            let sw = to_i32(tbl, src_w);
            let sh = to_i32(tbl, src_h);
            let dx = to_i32(tbl, dest_x);
            let dy = to_i32(tbl, dest_y);
            bd.copy_pixels(source, sx, sy, sw, sh, dx, dy, None, 0, 0, merge_alpha);
            Ok(Value::Undefined)
        },
    }
}

/// Registers the bitmap class: sealed, in the `flash.display` package,
/// implementing the drawable interface, with the width, height and
/// transparent getters and the pixel methods as instance traits backed by
/// the given method bodies. Registration always succeeds: both the
/// interface and the class are rootless and name only already-registered
/// classes.
pub fn create_class(avm: &mut Avm, getter_body: usize, method_body: usize)
    -> (r: Result<ClassId, ClassError>)
    requires
        old(avm).wf(),
    ensures
        final(avm).wf(),
        r is Ok,
        match r {
            Ok(id) => ({
                let classes = final(avm).registry.spec_classes();
                let names = final(avm).registry.spec_names();
                let c = classes[id as int];
                &&& id < classes.len()
                &&& c.is_sealed
                &&& !c.is_interface
                &&& c.name < names.len()
                &&& names[c.name as int].ns@ == "flash.display".spec_bytes()
                &&& names[c.name as int].name@ == "BitmapData".spec_bytes()
                &&& c.interfaces@.len() == 1
                &&& ({
                    let i = c.interfaces@[0];
                    &&& i < classes.len()
                    &&& classes[i as int].is_interface
                    &&& classes[i as int].name < names.len()
                    &&& names[classes[i as int].name as int].ns@
                        == "flash.display".spec_bytes()
                    &&& names[classes[i as int].name as int].name@
                        == "IBitmapDrawable".spec_bytes()
                })
            }),
            Err(_) => false,
        },
{
    let n_width = avm.registry.intern(QName::new(Vec::new(), bytes_of("width".as_bytes())));
    let n_height = avm.registry.intern(QName::new(Vec::new(),
        bytes_of("height".as_bytes())));
    let n_transparent = avm.registry.intern(QName::new(Vec::new(),
        bytes_of("transparent".as_bytes())));
    let n_get_pixel = avm.registry.intern(QName::new(Vec::new(),
        bytes_of("getPixel".as_bytes())));
    let n_draw = avm.registry.intern(QName::new(Vec::new(), bytes_of("draw".as_bytes())));
    let n_lock = avm.registry.intern(QName::new(Vec::new(), bytes_of("lock".as_bytes())));
    let n_unlock = avm.registry.intern(QName::new(Vec::new(),
        bytes_of("unlock".as_bytes())));
    let n_fill_rect = avm.registry.intern(QName::new(Vec::new(),
        bytes_of("fillRect".as_bytes())));
    let n_copy_pixels = avm.registry.intern(QName::new(Vec::new(),
        bytes_of("copyPixels".as_bytes())));
    let iface_name = avm.registry.intern(QName::new(bytes_of("flash.display".as_bytes()),
        bytes_of("IBitmapDrawable".as_bytes())));
    proof {
        assert(avm.registry.spec_names()[iface_name as int].ns@
            == "flash.display".spec_bytes());
        assert(avm.registry.spec_names()[iface_name as int].name@
            == "IBitmapDrawable".spec_bytes());
    }
    let iface = match avm.registry.add_class(ClassDef {
        name: iface_name,
        super_class: None,
        interfaces: Vec::new(),
        is_final: false,
        is_sealed: false,
        is_interface: true,
        instance_traits: Vec::new(),
    }) {
        Ok(id) => id,
        Err(e) => {
            // a rootless interface with no interfaces of its own always
            // registers
            proof {
                assert(false);
            }
            return Err(e);
        },
    };
    let class_name = avm.registry.intern(QName::new(bytes_of("flash.display".as_bytes()),
        bytes_of("BitmapData".as_bytes())));
    proof {
        assert(avm.registry.spec_names()[class_name as int].ns@
            == "flash.display".spec_bytes());
        assert(avm.registry.spec_names()[class_name as int].name@
            == "BitmapData".spec_bytes());
        assert(avm.registry.spec_names()[iface_name as int].ns@
            == "flash.display".spec_bytes());
        assert(avm.registry.spec_names()[iface_name as int].name@
            == "IBitmapDrawable".spec_bytes());
        assert(iface_name < avm.registry.spec_names().len());
    }
    let mut traits: Vec<TraitDecl> = Vec::new();
    traits.push(TraitDecl { name: n_width, kind: TraitKind::Getter { method: getter_body } });
    traits.push(TraitDecl { name: n_height,
        kind: TraitKind::Getter { method: getter_body } });
    traits.push(TraitDecl { name: n_transparent,
        kind: TraitKind::Getter { method: getter_body } });
    traits.push(TraitDecl { name: n_get_pixel,
        kind: TraitKind::Method { method: method_body } });
    traits.push(TraitDecl { name: n_draw, kind: TraitKind::Method { method: method_body } });
    traits.push(TraitDecl { name: n_lock, kind: TraitKind::Method { method: method_body } });
    traits.push(TraitDecl { name: n_unlock,
        kind: TraitKind::Method { method: method_body } });
    traits.push(TraitDecl { name: n_fill_rect,
        kind: TraitKind::Method { method: method_body } });
    traits.push(TraitDecl { name: n_copy_pixels,
        kind: TraitKind::Method { method: method_body } });
    let mut interfaces: Vec<ClassId> = Vec::new();
    interfaces.push(iface);
    proof {
        assert(interfaces@ =~= seq![iface]);
        assert(iface < avm.registry.spec_classes().len());
    }
    avm.registry.add_class(ClassDef {
        name: class_name,
        super_class: None,
        interfaces,
        is_final: false,
        is_sealed: true,
        is_interface: false,
        instance_traits: traits,
    })
}

/// A byte vector from a byte-string literal.
fn bytes_of(s: &[u8]) -> (r: Vec<u8>)
    ensures
        r@ == s@,
{
    let mut out: Vec<u8> = Vec::new();
    let n = s.len();
    let mut i: usize = 0;
    while i < n
        invariant
            i <= n,
            n == s@.len(),
            out@ =~= s@.take(i as int),
        decreases n - i,
    {
        out.push(s[i]);
        i = i + 1;
    }
    proof {
        assert(s@.take(n as int) =~= s@);
    }
    out
}

/// The current worker, as the worker class's static getter reports it:
/// the script object standing for the calling worker.
pub fn get_current(current_worker_obj: ObjId) -> (r: Value)
    ensures
        r == Value::Object(current_worker_obj),
{
    Value::Object(current_worker_obj)
}

/// Whether the receiver worker is the primordial one.
pub fn get_is_primordial(domain: &WorkerDomain, worker: WorkerId) -> (r: Value)
    ensures
        r == Value::Boolean(worker < domain.spec_workers().len()
            && domain.spec_workers()[worker as int].kind
                == crate::worker::WorkerKind::Primordial),
{
    Value::Boolean(domain.is_primordial(worker))
}

/// Creates a message channel bound to the receiver worker as sender and
/// the argument worker as receiver.
pub fn create_message_channel(sender: WorkerId, receiver: WorkerId)
    -> (r: MessageChannelObject)
    ensures
        r.spec_sender_worker() == sender,
        r.spec_receiver_worker() == receiver,
{
    MessageChannelObject::new(sender, receiver)
}

/// The worker class's native constructor: construction happens through
/// the worker domain, so the constructor itself only yields undefined.
pub fn native_instance_init() -> (r: Value)
    ensures
        r == Value::Undefined,
{
    Value::Undefined
}

/// Creates a non-primordial worker in the domain; the host keeps the
/// movie bytes and the thread.
pub fn create_worker(domain: &mut WorkerDomain) -> (r: WorkerId)
    requires
        old(domain).wf(),
    ensures
        final(domain).wf(),
        r == old(domain).spec_workers().len(),
        final(domain).spec_workers() == old(domain).spec_workers().push(
            crate::worker::WorkerHandle { kind: crate::worker::WorkerKind::NonPrimordial,
                state: crate::worker::WorkerState::Created }),
{
    domain.create_worker()
}

/// The channel class's instance allocator: channels are created by
/// `create_message_channel`, never by the allocator, so calling it is an
/// explicit error rather than an abort.
pub fn messagechannel_allocator() -> (r: Result<Value, AvmError>)
    ensures
        r == Err::<Value, AvmError>(AvmError::Unsupported),
{
    Err(AvmError::Unsupported)
}

/// The worker class's instance allocator: workers are created by the
/// worker domain, never by the allocator, so calling it is an explicit
/// error rather than an abort.
pub fn worker_allocator() -> (r: Result<Value, AvmError>)
    ensures
        r == Err::<Value, AvmError>(AvmError::Unsupported),
{
    Err(AvmError::Unsupported)
}

/// The dynamic-property-writer hook's getter: the hook is not supported
/// by this engine and reads as undefined.
pub fn get_dynamic_property_writer() -> (r: Value)
    ensures
        r == Value::Undefined,
{
    Value::Undefined
}

/// The dynamic-property-writer hook's setter: the hook is not supported
/// by this engine and the write is dropped, reported as undefined.
pub fn set_dynamic_property_writer() -> (r: Value)
    ensures
        r == Value::Undefined,
{
    Value::Undefined
}


/// The text the class-name reflection renders for a value: the two empty
/// values by name, the boxed class names for the other primitives, and
/// an object's class's qualified name — of a class object, the class it
/// stands for. Nothing for a dead cell or an unregistered class.
pub open spec fn spec_class_name_text(classes: Seq<ClassDef>, names: Seq<QName>,
    cells: Seq<Option<crate::heap::HeapObject>>, v: Value) -> Option<Seq<u8>> {
    match v {
        Value::Null => Some("null".spec_bytes()),
        Value::Undefined => Some("void".spec_bytes()),
        Value::Boolean(_) => Some("Boolean".spec_bytes()),
        Value::Integer(_) => Some("int".spec_bytes()),
        Value::Unsigned(_) => Some("uint".spec_bytes()),
        Value::Number(_) => Some("Number".spec_bytes()),
        Value::Str(_) => Some("String".spec_bytes()),
        Value::Object(id) => {
            if id < cells.len() && cells[id as int] is Some {
                let o = cells[id as int].unwrap();
                let c: int = match o.kind {
                    ObjKind::ClassObj(cc) => cc as int,
                    _ => o.class as int,
                };
                if 0 <= c < classes.len() {
                    Some(spec_class_qname(classes, names, c))
                } else {
                    None
                }
            } else {
                None
            }
        },
    }
}

/// The qualified class name of a value: "null" and "void" for the two
/// empty values, the boxed class's name for the other primitives, and
/// the object's own class's qualified name for an object — of a class
/// object, the class it stands for. An object of an unregistered class
/// has no name and yields null.
pub fn get_qualified_class_name(avm: &mut Avm, v: &Value) -> (r: Result<Value, AvmError>)
    requires
        old(avm).wf(),
    ensures
        final(avm).wf(),
        final(avm).registry == old(avm).registry,
        final(avm).heap == old(avm).heap,
        final(avm).methods == old(avm).methods,
        ({
            let text = spec_class_name_text(old(avm).registry.spec_classes(),
                old(avm).registry.spec_names(), old(avm).heap.spec_cells(), *v);
            match r {
                Ok(Value::Str(id)) => id < final(avm).strings.spec_strings().len()
                    && text == Some(final(avm).strings.spec_strings()[id as int]@),
                Ok(Value::Null) => *v is Object && text is None
                    && !(r == Err::<Value, AvmError>(AvmError::NoSuchObject {
                        obj: v->Object_0 })),
                Ok(_) => false,
                Err(AvmError::NoSuchObject { obj }) => *v == Value::Object(obj)
                    && (obj >= old(avm).heap.spec_cells().len()
                        || old(avm).heap.spec_cells()[obj as int] is None),
                Err(_) => false,
            }
        }),
{
    let name_bytes: Vec<u8> = match v {
        Value::Null => bytes_of("null".as_bytes()),
        Value::Undefined => bytes_of("void".as_bytes()),
        Value::Boolean(_) => bytes_of("Boolean".as_bytes()),
        Value::Integer(_) => bytes_of("int".as_bytes()),
        Value::Unsigned(_) => bytes_of("uint".as_bytes()),
        Value::Number(_) => bytes_of("Number".as_bytes()),
        Value::Str(_) => bytes_of("String".as_bytes()),
        Value::Object(id) => {
            let class = match avm.heap.get(*id) {
                Some(o) => match o.kind {
                    ObjKind::ClassObj(c) => c,
                    _ => o.class,
                },
                None => {
                    return Err(AvmError::NoSuchObject { obj: *id });
                },
            };
            if class >= avm.registry.class_count() {
                return Ok(Value::Null);
            }
            qualified_class_name_bytes(&avm.registry, class)
        },
    };
    let sid = avm.strings.intern(name_bytes);
    Ok(Value::Str(sid))
}

/// The qualified name a registered class renders as; empty for a stale
/// handle, as `spec_class_qname` gives it.
fn qualified_class_name_bytes(registry: &ClassRegistry, class: ClassId) -> (r: Vec<u8>)
    ensures
        r@ == spec_class_qname(registry.spec_classes(), registry.spec_names(), class as int),
{
    let name_id = match registry.class_name(class) {
        Some(n) => n,
        None => {
            return Vec::new();
        },
    };
    match registry.name_of(name_id) {
        Some(q) => crate::utils::qualified_name(&q.ns, &q.name),
        None => Vec::new(),
    }
}

/// The superclass a value's class extends, if any: the class of an
/// object (of a class object, the class itself), provided it is
/// registered and has a superclass.
pub open spec fn spec_superclass_of_value(classes: Seq<ClassDef>,
    cells: Seq<Option<crate::heap::HeapObject>>, v: Value) -> Option<ClassId> {
    match v {
        Value::Object(id) => {
            if id < cells.len() && cells[id as int] is Some {
                let o = cells[id as int].unwrap();
                let c: int = match o.kind {
                    ObjKind::ClassObj(cc) => cc as int,
                    _ => o.class as int,
                };
                if 0 <= c < classes.len() {
                    classes[c].super_class
                } else {
                    None
                }
            } else {
                None
            }
        },
        _ => None,
    }
}

/// The qualified name of the superclass of a value's class: null at the
/// root of the hierarchy, for a non-object, or for an unregistered
/// class; a dead cell is an error.
pub fn get_qualified_superclass_name(avm: &mut Avm, v: &Value)
    -> (r: Result<Value, AvmError>)
    requires
        old(avm).wf(),
    ensures
        final(avm).wf(),
        final(avm).registry == old(avm).registry,
        final(avm).heap == old(avm).heap,
        final(avm).methods == old(avm).methods,
        ({
            let sup = spec_superclass_of_value(old(avm).registry.spec_classes(),
                old(avm).heap.spec_cells(), *v);
            match r {
                Ok(Value::Str(id)) => sup is Some
                    && id < final(avm).strings.spec_strings().len()
                    && final(avm).strings.spec_strings()[id as int]@
                        == spec_class_qname(old(avm).registry.spec_classes(),
                            old(avm).registry.spec_names(), sup.unwrap() as int),
                Ok(Value::Null) => sup is None,
                Ok(_) => false,
                Err(AvmError::NoSuchObject { obj }) => *v == Value::Object(obj)
                    && (obj >= old(avm).heap.spec_cells().len()
                        || old(avm).heap.spec_cells()[obj as int] is None),
                Err(_) => false,
            }
        }),
{
    let class = match v {
        Value::Object(id) => match avm.heap.get(*id) {
            Some(o) => match o.kind {
                ObjKind::ClassObj(c) => c,
                _ => o.class,
            },
            None => {
                return Err(AvmError::NoSuchObject { obj: *id });
            },
        },
        _ => {
            return Ok(Value::Null);
        },
    };
    if class >= avm.registry.class_count() {
        return Ok(Value::Null);
    }
    let sup = match avm.registry.super_of(class) {
        Some(s) => s,
        None => {
            return Ok(Value::Null);
        },
    };
    let b = qualified_class_name_bytes(&avm.registry, sup);
    let sid = avm.strings.intern(b);
    Ok(Value::Str(sid))
}

/// The first registered class whose qualified name renders as `q`, or
/// -1.
pub open spec fn spec_find_class_by_qname(classes: Seq<ClassDef>, names: Seq<QName>,
    q: Seq<u8>) -> int
    decreases classes.len(),
{
    if classes.len() == 0 {
        -1
    } else if spec_class_qname_of_def(names, classes[0]) == q {
        0
    } else {
        let r = spec_find_class_by_qname(classes.drop_first(), names, q);
        if r < 0 {
            -1
        } else {
            r + 1
        }
    }
}

/// The qualified name one class definition renders as.
pub open spec fn spec_class_qname_of_def(names: Seq<QName>, c: ClassDef) -> Seq<u8> {
    spec_qname_of(names, c.name as int)
}

proof fn lemma_find_class_by_qname_char(classes: Seq<ClassDef>, names: Seq<QName>,
    q: Seq<u8>, i: int)
    requires
        0 <= i < classes.len(),
        spec_class_qname_of_def(names, classes[i]) == q,
        forall|k: int| 0 <= k < i
            ==> spec_class_qname_of_def(names, #[trigger] classes[k]) != q,
    ensures
        spec_find_class_by_qname(classes, names, q) == i,
    decreases classes.len(),
{
    if i > 0 {
        lemma_find_class_by_qname_char(classes.drop_first(), names, q, i - 1);
    }
}

proof fn lemma_find_class_by_qname_none(classes: Seq<ClassDef>, names: Seq<QName>,
    q: Seq<u8>)
    requires
        forall|k: int| 0 <= k < classes.len()
            ==> spec_class_qname_of_def(names, #[trigger] classes[k]) != q,
    ensures
        spec_find_class_by_qname(classes, names, q) == -1,
    decreases classes.len(),
{
    if classes.len() > 0 {
        lemma_find_class_by_qname_none(classes.drop_first(), names, q);
    }
}

/// Looks a class up by its qualified name and yields a fresh class
/// object standing for the first class that bears it; a name no class
/// bears is a reference error naming it, never null.
pub fn get_definition_by_name(avm: &mut Avm, name: &Vec<u8>) -> (r: Result<Value, AvmError>)
    requires
        old(avm).wf(),
    ensures
        final(avm).wf(),
        final(avm).registry.spec_classes() == old(avm).registry.spec_classes(),
        final(avm).strings == old(avm).strings,
        final(avm).methods == old(avm).methods,
        ({
            let f = spec_find_class_by_qname(old(avm).registry.spec_classes(),
                old(avm).registry.spec_names(), name@);
            match r {
                Ok(Value::Object(o)) => {
                    &&& f >= 0
                    &&& o < final(avm).heap.spec_cells().len()
                    &&& final(avm).heap.spec_cells()[o as int] is Some
                    &&& ({
                        let cell = final(avm).heap.spec_cells()[o as int].unwrap();
                        cell.kind == ObjKind::ClassObj(f as ClassId)
                            && cell.class == f as ClassId
                    })
                    &&& (forall|i: int| 0 <= i < old(avm).heap.spec_cells().len()
                        && i != o ==> final(avm).heap.spec_cells()[i]
                            == old(avm).heap.spec_cells()[i])
                },
                Ok(_) => false,
                Err(AvmError::ReferenceError { name: n }) => f == -1
                    && final(avm).heap == old(avm).heap
                    && n < final(avm).registry.spec_names().len()
                    && final(avm).registry.spec_names()[n as int].name@ == name@,
                Err(_) => false,
            }
        }),
{
    let n = avm.registry.class_count();
    let mut c: usize = 0;
    while c < n
        invariant
            c <= n,
            avm.wf(),
            n == avm.registry.spec_classes().len(),
            *avm == *old(avm),
            forall|k: int| 0 <= k < c ==> spec_class_qname_of_def(
                avm.registry.spec_names(), #[trigger] avm.registry.spec_classes()[k])
                != name@,
        decreases n - c,
    {
        let q = qualified_class_name_bytes(&avm.registry, c);
        if crate::property::bytes_eq(q.as_slice(), name.as_slice()) {
            proof {
                lemma_find_class_by_qname_char(avm.registry.spec_classes(),
                    avm.registry.spec_names(), name@, c as int);
            }
            let obj = avm.heap.allocate(HeapObject {
                class: c,
                slots: Vec::new(),
                dynamic: Vec::new(),
                elements: Vec::new(),
                kind: ObjKind::ClassObj(c),
            });
            return Ok(Value::Object(obj));
        }
        c = c + 1;
    }
    proof {
        lemma_find_class_by_qname_none(avm.registry.spec_classes(),
            avm.registry.spec_names(), name@);
    }
    let name_id = avm.registry.intern(QName::new(Vec::new(),
        crate::class::copy_vec(name)));
    Err(AvmError::ReferenceError { name: name_id })
}

/// The qualified form of an interned name, empty for a stale handle.
pub open spec fn spec_qname_of(names: Seq<QName>, id: int) -> Seq<u8> {
    if 0 <= id < names.len() {
        crate::utils::spec_qualified(names[id].ns@, names[id].name@)
    } else {
        Seq::<u8>::empty()
    }
}

/// The qualified name of a registered class, empty for a stale handle.
pub open spec fn spec_class_qname(classes: Seq<ClassDef>, names: Seq<QName>, c: int)
    -> Seq<u8> {
    if 0 <= c < classes.len() {
        spec_qname_of(names, classes[c].name as int)
    } else {
        Seq::<u8>::empty()
    }
}

/// A boolean as markup text.
pub open spec fn spec_bool_bytes(b: bool) -> Seq<u8> {
    if b {
        "true".spec_bytes()
    } else {
        "false".spec_bytes()
    }
}

/// The chain of ancestor lines of the description: one line per class on
/// the superclass chain, nearest first.
pub open spec fn spec_extends_chain(classes: Seq<ClassDef>, names: Seq<QName>, c: int)
    -> Seq<u8>
    decreases c,
{
    if !(0 <= c < classes.len()) {
        Seq::<u8>::empty()
    } else {
        match classes[c].super_class {
            None => Seq::<u8>::empty(),
            Some(s) => if s < c {
                "<extendsClass type=\"".spec_bytes() + spec_class_qname(classes, names,
                    s as int) + "\"/>".spec_bytes()
                    + spec_extends_chain(classes, names, s as int)
            } else {
                Seq::<u8>::empty()
            },
        }
    }
}

/// The interface lines of the description, in declaration order.
pub open spec fn spec_iface_lines(classes: Seq<ClassDef>, names: Seq<QName>,
    ifs: Seq<ClassId>) -> Seq<u8>
    decreases ifs.len(),
{
    if ifs.len() == 0 {
        Seq::<u8>::empty()
    } else {
        "<implementsInterface type=\"".spec_bytes()
            + spec_class_qname(classes, names, ifs[0] as int) + "\"/>".spec_bytes()
            + spec_iface_lines(classes, names, ifs.drop_first())
    }
}

/// The markup of a slot's declared type: the type's name, or the class's
/// qualified name once resolved.
pub open spec fn spec_lazy_type_bytes(classes: Seq<ClassDef>, names: Seq<QName>,
    lc: crate::property::LazyClass) -> Seq<u8> {
    match lc {
        crate::property::LazyClass::Name(n) => spec_qname_of(names, n as int),
        crate::property::LazyClass::Class(c) => spec_class_qname(classes, names, c as int),
    }
}

/// One member line of the description: a constant or variable with its
/// declared type, a method, or an accessor with its access mode.
pub open spec fn spec_member_line(classes: Seq<ClassDef>, names: Seq<QName>,
    entry: (NameId, Property)) -> Seq<u8> {
    let nm = spec_qname_of(names, entry.0 as int);
    match entry.1 {
        Property::ConstSlot { class: lc, .. } => "<constant name=\"".spec_bytes() + nm
            + "\" type=\"".spec_bytes() + spec_lazy_type_bytes(classes, names, lc)
            + "\"/>".spec_bytes(),
        Property::Slot { class: lc, .. } => "<variable name=\"".spec_bytes() + nm
            + "\" type=\"".spec_bytes() + spec_lazy_type_bytes(classes, names, lc)
            + "\"/>".spec_bytes(),
        Property::Method { .. } => "<method name=\"".spec_bytes() + nm
            + "\"/>".spec_bytes(),
        Property::Virtual { get, set } => "<accessor name=\"".spec_bytes() + nm
            + "\" access=\"".spec_bytes()
            + (if get is Some && set is Some {
                "readwrite".spec_bytes()
            } else if get is Some {
                "readonly".spec_bytes()
            } else if set is Some {
                "writeonly".spec_bytes()
            } else {
                "none".spec_bytes()
            }) + "\"/>".spec_bytes(),
    }
}

/// The member lines of the description, in resolution order.
pub open spec fn spec_member_lines(classes: Seq<ClassDef>, names: Seq<QName>,
    entries: Seq<(NameId, Property)>) -> Seq<u8>
    decreases entries.len(),
{
    if entries.len() == 0 {
        Seq::<u8>::empty()
    } else {
        spec_member_line(classes, names, entries[0])
            + spec_member_lines(classes, names, entries.drop_first())
    }
}

/// The whole description of a class: its header with name, base and
/// attribute flags, the ancestor lines, the interface lines, the member
/// lines from its resolved table, and the closing tag.
pub open spec fn spec_describe(classes: Seq<ClassDef>, names: Seq<QName>,
    vt: crate::class::VtS, c: int, is_static: bool) -> Seq<u8> {
    let base = if 0 <= c < classes.len() {
        match classes[c].super_class {
            Some(s) => spec_class_qname(classes, names, s as int),
            None => "*".spec_bytes(),
        }
    } else {
        "*".spec_bytes()
    };
    let is_dynamic = 0 <= c < classes.len() && !classes[c].is_sealed;
    let is_final = 0 <= c < classes.len() && classes[c].is_final;
    let ifs: Seq<ClassId> = if 0 <= c < classes.len() {
        classes[c].interfaces@
    } else {
        Seq::<ClassId>::empty()
    };
    "<type name=\"".spec_bytes() + spec_class_qname(classes, names, c)
        + "\" base=\"".spec_bytes() + base
        + "\" isDynamic=\"".spec_bytes() + spec_bool_bytes(is_dynamic)
        + "\" isFinal=\"".spec_bytes() + spec_bool_bytes(is_final)
        + "\" isStatic=\"".spec_bytes() + spec_bool_bytes(is_static)
        + "\">".spec_bytes()
        + spec_extends_chain(classes, names, c)
        + spec_iface_lines(classes, names, ifs)
        + spec_member_lines(classes, names, vt.0)
        + "</type>".spec_bytes()
}

/// A literal's bytes.
fn lit(s: &str) -> (r: Vec<u8>)
    ensures
        r@ == s.spec_bytes(),
{
    bytes_of(s.as_bytes())
}

/// The qualified form of an interned name.
fn qname_bytes(registry: &ClassRegistry, id: NameId) -> (r: Vec<u8>)
    ensures
        r@ == spec_qname_of(registry.spec_names(), id as int),
{
    match registry.name_of(id) {
        Some(q) => crate::utils::qualified_name(&q.ns, &q.name),
        None => Vec::new(),
    }
}

/// The qualified name of a registered class.
fn class_qname_bytes(registry: &ClassRegistry, c: ClassId) -> (r: Vec<u8>)
    ensures
        r@ == spec_class_qname(registry.spec_classes(), registry.spec_names(), c as int),
{
    match registry.class_name(c) {
        Some(n) => qname_bytes(registry, n),
        None => Vec::new(),
    }
}

fn bool_bytes(b: bool) -> (r: Vec<u8>)
    ensures
        r@ == spec_bool_bytes(b),
{
    if b {
        lit("true")
    } else {
        lit("false")
    }
}

/// Describes the class of a value as markup: the header with the class's
/// qualified name, base and attribute flags, the ancestor chain, the
/// declared interfaces, and every member of the resolved table. Of a
/// class object the description is static and covers the class itself.
/// Success is owed on every live object whose class resolves, so two
/// calls on the same object in the same state yield the same markup;
/// the three errors are exact: a non-object value, a dead cell, and a
/// class whose trait resolution fails.
pub fn describe_type(avm: &mut Avm, v: &Value) -> (r: Result<Vec<u8>, AvmError>)
    requires
        old(avm).wf(),
    ensures
        final(avm).wf(),
        final(avm).registry.spec_classes() == old(avm).registry.spec_classes(),
        final(avm).registry.spec_names() == old(avm).registry.spec_names(),
        final(avm).heap == old(avm).heap,
        final(avm).strings == old(avm).strings,
        final(avm).methods == old(avm).methods,
        ({
            let classes = old(avm).registry.spec_classes();
            let names = old(avm).registry.spec_names();
            let cells = old(avm).heap.spec_cells();
            match r {
                Ok(out) => {
                    &&& *v is Object
                    &&& v->Object_0 < cells.len()
                    &&& cells[v->Object_0 as int] is Some
                    &&& ({
                        let o = cells[v->Object_0 as int].unwrap();
                        let c: int = match o.kind {
                            ObjKind::ClassObj(cc) => cc as int,
                            _ => o.class as int,
                        };
                        let st = o.kind is ClassObj;
                        &&& crate::class::spec_resolve(classes, c, crate::class::ANY_NAME)
                            is Ok
                        &&& out@ == spec_describe(classes, names,
                            crate::class::spec_resolve(classes, c,
                                crate::class::ANY_NAME).unwrap(), c, st)
                    })
                },
                Err(AvmError::Unsupported) => !(*v is Object),
                Err(AvmError::NoSuchObject { obj }) => *v == Value::Object(obj)
                    && (obj >= cells.len() || cells[obj as int] is None),
                Err(AvmError::Class(e)) => {
                    &&& *v is Object
                    &&& v->Object_0 < cells.len()
                    &&& cells[v->Object_0 as int] is Some
                    &&& ({
                        let o = cells[v->Object_0 as int].unwrap();
                        let c: int = match o.kind {
                            ObjKind::ClassObj(cc) => cc as int,
                            _ => o.class as int,
                        };
                        crate::class::spec_resolve(classes, c, crate::class::ANY_NAME)
                            == Err::<crate::class::VtS, crate::class::ClassError>(e)
                    })
                },
                Err(_) => false,
            }
        }),
{
    let (class, is_static) = match v {
        Value::Object(id) => match avm.heap.get(*id) {
            Some(o) => match o.kind {
                ObjKind::ClassObj(c) => (c, true),
                _ => (o.class, false),
            },
            None => {
                return Err(AvmError::NoSuchObject { obj: *id });
            },
        },
        _ => {
            return Err(AvmError::Unsupported);
        },
    };
    let vt = match avm.registry.resolve_vtable(class) {
        Ok(vt) => vt,
        Err(e) => {
            return Err(AvmError::Class(e));
        },
    };
    let ghost classes = avm.registry.spec_classes();
    let ghost names = avm.registry.spec_names();
    let registry = &avm.registry;
    let mut out: Vec<u8> = Vec::new();
    append_vec(&mut out, lit("<type name=\""));
    append_vec(&mut out, class_qname_bytes(registry, class));
    append_vec(&mut out, lit("\" base=\""));
    let base = match registry.super_of(class) {
        Some(s) => class_qname_bytes(registry, s),
        None => lit("*"),
    };
    append_vec(&mut out, base);
    let (sealed, is_final, _) = match registry.class_attrs(class) {
        Some(f) => f,
        None => (true, false, false),
    };
    append_vec(&mut out, lit("\" isDynamic=\""));
    append_vec(&mut out, bool_bytes(class < registry.class_count() && !sealed));
    append_vec(&mut out, lit("\" isFinal=\""));
    append_vec(&mut out, bool_bytes(class < registry.class_count() && is_final));
    append_vec(&mut out, lit("\" isStatic=\""));
    append_vec(&mut out, bool_bytes(is_static));
    append_vec(&mut out, lit("\">"));
    // the ancestor chain, nearest first
    let ghost chain_base = out@;
    let mut cur = class;
    let mut next = next_lesser_super(registry, cur);
    while next.is_some()
        invariant
            registry.wf(),
            classes == registry.spec_classes(),
            names == registry.spec_names(),
            next == spec_next_lesser_super(classes, cur as int),
            out@ + spec_extends_chain(classes, names, cur as int)
                == chain_base + spec_extends_chain(classes, names, class as int),
        decreases cur,
    {
        let s = match next {
            Some(s) => s,
            None => 0,
        };
        append_vec(&mut out, lit("<extendsClass type=\""));
        append_vec(&mut out, class_qname_bytes(registry, s));
        append_vec(&mut out, lit("\"/>"));
        cur = s;
        next = next_lesser_super(registry, cur);
    }
    proof {
        lemma_chain_stops(classes, names, cur as int);
    }
    // the declared interfaces
    let ifs = registry.interface_ids(class);
    let ghost iface_base = out@;
    let n_ifs = ifs.len();
    let mut k: usize = 0;
    proof {
        assert(ifs@.skip(0) =~= ifs@);
        if class < classes.len() {
            assert(ifs@ == classes[class as int].interfaces@);
        } else {
            assert(ifs@ =~= Seq::<ClassId>::empty());
        }
    }
    while k < n_ifs
        invariant
            k <= n_ifs,
            n_ifs == ifs@.len(),
            registry.wf(),
            classes == registry.spec_classes(),
            names == registry.spec_names(),
            out@ + spec_iface_lines(classes, names, ifs@.skip(k as int))
                == iface_base + spec_iface_lines(classes, names, ifs@),
        decreases n_ifs - k,
    {
        proof {
            let fs = ifs@.skip(k as int);
            assert(fs[0] == ifs@[k as int]);
            assert(fs.drop_first() =~= ifs@.skip(k as int + 1));
        }
        append_vec(&mut out, lit("<implementsInterface type=\""));
        append_vec(&mut out, class_qname_bytes(registry, ifs[k]));
        append_vec(&mut out, lit("\"/>"));
        k = k + 1;
    }
    proof {
        assert(spec_iface_lines(classes, names, ifs@.skip(n_ifs as int))
            =~= Seq::<u8>::empty());
    }
    // the members of the resolved table, in resolution order
    let ghost member_base = out@;
    let n_members = vt.entries.len();
    let mut m: usize = 0;
    proof {
        assert(vt.entries@.skip(0) =~= vt.entries@);
    }
    while m < n_members
        invariant
            m <= n_members,
            n_members == vt.entries@.len(),
            registry.wf(),
            classes == registry.spec_classes(),
            names == registry.spec_names(),
            out@ + spec_member_lines(classes, names, vt.entries@.skip(m as int))
                == member_base + spec_member_lines(classes, names, vt.entries@),
        decreases n_members - m,
    {
        proof {
            let es = vt.entries@.skip(m as int);
            assert(es[0] == vt.entries@[m as int]);
            assert(es.drop_first() =~= vt.entries@.skip(m as int + 1));
        }
        append_member_line(&mut out, registry, vt.entries[m]);
        m = m + 1;
    }
    proof {
        assert(spec_member_lines(classes, names, vt.entries@.skip(n_members as int))
            =~= Seq::<u8>::empty());
    }
    append_vec(&mut out, lit("</type>"));
    proof {
        assert(out@ =~= spec_describe(classes, names, vt.view_vt(), class as int,
            is_static));
    }
    Ok(out)
}

/// The superclass a description's ancestor walk may step to: only an
/// earlier-registered class.
pub open spec fn spec_next_lesser_super(classes: Seq<ClassDef>, c: int) -> Option<ClassId> {
    if 0 <= c < classes.len() {
        match classes[c].super_class {
            Some(s) => if s < c {
                Some(s)
            } else {
                None
            },
            None => None,
        }
    } else {
        None
    }
}

fn next_lesser_super(registry: &ClassRegistry, c: ClassId) -> (r: Option<ClassId>)
    ensures
        r == spec_next_lesser_super(registry.spec_classes(), c as int),
{
    match registry.super_of(c) {
        Some(s) => {
            if s < c {
                Some(s)
            } else {
                None
            }
        },
        None => None,
    }
}

/// Where the ancestor walk stops, the chain's markup is empty.
proof fn lemma_chain_stops(classes: Seq<ClassDef>, names: Seq<QName>, c: int)
    requires
        spec_next_lesser_super(classes, c) is None,
    ensures
        spec_extends_chain(classes, names, c) == Seq::<u8>::empty(),
{
}

/// Appends one member line of a description.
fn append_member_line(out: &mut Vec<u8>, registry: &ClassRegistry, entry: (NameId, Property))
    ensures
        final(out)@ == old(out)@ + spec_member_line(registry.spec_classes(),
            registry.spec_names(), entry),
{
    let (name_id, prop) = entry;
    let nm = qname_bytes(registry, name_id);
    match prop {
        Property::ConstSlot { class: lc, .. } => {
            append_vec(out, lit("<constant name=\""));
            append_vec(out, nm);
            append_vec(out, lit("\" type=\""));
            append_vec(out, lazy_type_bytes(registry, lc));
            append_vec(out, lit("\"/>"));
        },
        Property::Slot { class: lc, .. } => {
            append_vec(out, lit("<variable name=\""));
            append_vec(out, nm);
            append_vec(out, lit("\" type=\""));
            append_vec(out, lazy_type_bytes(registry, lc));
            append_vec(out, lit("\"/>"));
        },
        Property::Method { .. } => {
            append_vec(out, lit("<method name=\""));
            append_vec(out, nm);
            append_vec(out, lit("\"/>"));
        },
        Property::Virtual { get, set } => {
            append_vec(out, lit("<accessor name=\""));
            append_vec(out, nm);
            append_vec(out, lit("\" access=\""));
            let mode = if get.is_some() && set.is_some() {
                lit("readwrite")
            } else if get.is_some() {
                lit("readonly")
            } else if set.is_some() {
                lit("writeonly")
            } else {
                lit("none")
            };
            append_vec(out, mode);
            append_vec(out, lit("\"/>"));
        },
    }
}

/// The markup of a slot's declared type.
fn lazy_type_bytes(registry: &ClassRegistry, lc: crate::property::LazyClass) -> (r: Vec<u8>)
    ensures
        r@ == spec_lazy_type_bytes(registry.spec_classes(), registry.spec_names(), lc),
{
    match lc {
        crate::property::LazyClass::Name(n) => qname_bytes(registry, n),
        crate::property::LazyClass::Class(c) => class_qname_bytes(registry, c),
    }
}

/// Appends one byte vector to another, consuming the piece.
fn append_vec(out: &mut Vec<u8>, piece: Vec<u8>)
    ensures
        final(out)@ == old(out)@ + piece@,
{
    crate::xml::append_bytes(out, &piece);
}

/// Converts a property-name argument to a qualified name in the public
/// namespace, as the tree methods take their name arguments: the
/// interned name's text is exactly the argument's string coercion. An
/// object would need its primitive hook, a fractional double has no
/// rendering, and a stale string handle has no content: each is an
/// explicit error.
pub fn name_to_multiname(avm: &mut Avm, v: &Value) -> (r: Result<NameId, AvmError>)
    requires
        old(avm).wf(),
    ensures
        final(avm).wf(),
        final(avm).registry.spec_classes() == old(avm).registry.spec_classes(),
        final(avm).heap == old(avm).heap,
        final(avm).strings == old(avm).strings,
        final(avm).methods == old(avm).methods,
        match r {
            Ok(id) => ({
                let q = final(avm).registry.spec_names()[id as int];
                &&& id < final(avm).registry.spec_names().len()
                &&& q.ns@.len() == 0
                &&& match *v {
                    Value::Undefined => q.name@ == "undefined".spec_bytes(),
                    Value::Null => q.name@ == "null".spec_bytes(),
                    Value::Boolean(x) => q.name@ == (if x {
                        "true".spec_bytes()
                    } else {
                        "false".spec_bytes()
                    }),
                    Value::Integer(n) => q.name@ == crate::value::spec_dec_signed(n as int),
                    Value::Unsigned(u) => q.name@ == crate::value::spec_dec(u as nat),
                    Value::Number(b) => crate::value::spec_number_to_string(b)
                        == Some(q.name@),
                    Value::Str(s) => s < old(avm).strings.spec_strings().len()
                        && q.name@ == old(avm).strings.spec_strings()[s as int]@,
                    Value::Object(_) => false,
                }
            }),
            Err(_) => *v is Object
                || (*v matches Value::Number(b)
                    && crate::value::spec_number_to_string(b) is None)
                || (*v matches Value::Str(s)
                    && s >= old(avm).strings.spec_strings().len()),
        },
{
    let bytes: Vec<u8> = match v {
        Value::Object(_) => {
            return Err(AvmError::Unsupported);
        },
        _ => match crate::value::to_string_value(&avm.strings, v) {
            Ok(b) => b,
            Err(()) => {
                return Err(AvmError::Unsupported);
            },
        },
    };
    let id = avm.registry.intern(QName::new(Vec::new(), bytes));
    Ok(id)
}

} // verus!
