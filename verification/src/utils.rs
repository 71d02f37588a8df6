//! The utility namespace: percent escaping and unescaping of byte
//! strings, timed callbacks, and reflection over qualified class names.

use vstd::prelude::*;
use crate::value::{Value, ObjId, StringTable};

verus! {

/// An ASCII letter or digit, which escaping leaves as it is.
pub open spec fn spec_is_alnum(b: u8) -> bool {
    (48 <= b <= 57) || (65 <= b <= 90) || (97 <= b <= 122)
}

/// The uppercase hex digit for a nibble.
pub open spec fn spec_hex_digit(n: u8) -> u8 {
    if n < 10 {
        (48 + n) as u8
    } else {
        (55 + n) as u8
    }
}

/// The escaped form of a byte string: letters and digits stand, every
/// other byte becomes a percent sign and two uppercase hex digits, and a
/// NUL ends the input.
pub open spec fn spec_escape(s: Seq<u8>) -> Seq<u8>
    decreases s.len(),
{
    if s.len() == 0 {
        Seq::<u8>::empty()
    } else if s[0] == 0 {
        Seq::<u8>::empty()
    } else if spec_is_alnum(s[0]) {
        seq![s[0]] + spec_escape(s.drop_first())
    } else {
        seq![37u8, spec_hex_digit(s[0] / 16), spec_hex_digit((s[0] % 16) as u8)]
            + spec_escape(s.drop_first())
    }
}

fn hex_digit(n: u8) -> (r: u8)
    requires
        n < 16,
    ensures
        r == spec_hex_digit(n),
{
    if n < 10 {
        48 + n
    } else {
        55 + n
    }
}

/// Percent-escapes a byte string: letters and digits stand, every other
/// byte becomes `%XX` with uppercase hex, and a NUL byte ends the input.
pub fn escape_multi_byte(s: &Vec<u8>) -> (r: Vec<u8>)
    ensures
        r@ == spec_escape(s@),
{
    let n = s.len();
    let mut out: Vec<u8> = Vec::new();
    let mut i: usize = 0;
    proof {
        assert(s@.skip(0) =~= s@);
    }
    while i < n
        invariant
            i <= n,
            n == s@.len(),
            spec_escape(s@) == out@ + spec_escape(s@.skip(i as int)),
        decreases n - i,
    {
        let b = s[i];
        proof {
            let t = s@.skip(i as int);
            assert(t[0] == b);
            assert(t.drop_first() =~= s@.skip(i as int + 1));
        }
        if b == 0 {
            proof {
                assert(out@ =~= out@ + Seq::<u8>::empty());
            }
            return out;
        }
        if (48 <= b && b <= 57) || (65 <= b && b <= 90) || (97 <= b && b <= 122) {
            out.push(b);
        } else {
            out.push(37);
            out.push(hex_digit(b / 16));
            out.push(hex_digit(b % 16));
        }
        i = i + 1;
    }
    proof {
        assert(spec_escape(s@.skip(n as int)) =~= Seq::<u8>::empty());
        assert(out@ =~= out@ + Seq::<u8>::empty());
    }
    out
}

/// The value of an ASCII hex digit, if it is one.
pub open spec fn spec_hex_val(b: u8) -> Option<u8> {
    if 48 <= b <= 57 {
        Some((b - 48) as u8)
    } else if 65 <= b <= 70 {
        Some((b - 55) as u8)
    } else if 97 <= b <= 102 {
        Some((b - 87) as u8)
    } else {
        None
    }
}

fn hex_val(b: u8) -> (r: Option<u8>)
    ensures
        r == spec_hex_val(b),
        r is Some ==> r.unwrap() < 16,
{
    if 48 <= b && b <= 57 {
        Some(b - 48)
    } else if 65 <= b && b <= 70 {
        Some(b - 55)
    } else if 97 <= b && b <= 102 {
        Some(b - 87)
    } else {
        None
    }
}

/// The byte two hex digits denote: the low nibble or-ed under the high
/// nibble.
pub fn handle_percent(high: u8, low: u8) -> (r: Option<u8>)
    ensures
        r == match (spec_hex_val(high), spec_hex_val(low)) {
            (Some(h), Some(l)) => Some((l | (h << 4)) as u8),
            _ => None::<u8>,
        },
{
    match (hex_val(high), hex_val(low)) {
        (Some(h), Some(l)) => Some(l | (h << 4u8)),
        _ => None,
    }
}

/// The unescaped form of a byte string: `%XX` with two hex digits
/// becomes one byte, a malformed escape stands as it is, and a NUL ends
/// the input.
pub open spec fn spec_unescape(s: Seq<u8>) -> Seq<u8>
    decreases s.len(),
{
    if s.len() == 0 {
        Seq::<u8>::empty()
    } else if s[0] == 0 {
        Seq::<u8>::empty()
    } else if s[0] == 37 && s.len() >= 3 && spec_hex_val(s[1]) is Some
        && spec_hex_val(s[2]) is Some {
        seq![(spec_hex_val(s[2]).unwrap()
            | (spec_hex_val(s[1]).unwrap() << 4)) as u8] + spec_unescape(s.skip(3))
    } else {
        seq![s[0]] + spec_unescape(s.drop_first())
    }
}

/// Undoes percent escaping: each `%XX` with two hex digits becomes one
/// byte, a malformed escape is copied as it is, and a NUL byte ends the
/// input.
pub fn unescape_multi_byte(s: &Vec<u8>) -> (r: Vec<u8>)
    ensures
        r@ == spec_unescape(s@),
{
    let n = s.len();
    let mut out: Vec<u8> = Vec::new();
    let mut i: usize = 0;
    proof {
        assert(s@.skip(0) =~= s@);
    }
    while i < n
        invariant
            i <= n,
            n == s@.len(),
            spec_unescape(s@) == out@ + spec_unescape(s@.skip(i as int)),
        decreases n - i,
    {
        let b = s[i];
        proof {
            let t = s@.skip(i as int);
            assert(t[0] == b);
            assert(t.drop_first() =~= s@.skip(i as int + 1));
            if n - i > 2 {
                assert(t[1] == s@[i as int + 1] && t[2] == s@[i as int + 2]);
                assert(t.skip(3) =~= s@.skip(i as int + 3));
            }
        }
        if b == 0 {
            proof {
                assert(out@ =~= out@ + Seq::<u8>::empty());
            }
            return out;
        }
        if b == 37 && n - i > 2 {
            let h = hex_val(s[i + 1]);
            let l = hex_val(s[i + 2]);
            match (h, l) {
                (Some(hv), Some(lv)) => {
                    out.push(lv | (hv << 4u8));
                    i = i + 3;
                    continue;
                },
                _ => {},
            }
        }
        out.push(b);
        i = i + 1;
    }
    proof {
        assert(spec_unescape(s@.skip(n as int)) =~= Seq::<u8>::empty());
        assert(out@ =~= out@ + Seq::<u8>::empty());
    }
    out
}

/// One scheduled callback: its id, the callback object, the interval in
/// milliseconds, and whether it runs once (a timeout) or repeats.
#[derive(Debug, Clone, Copy, PartialEq, Eq, Structural)]
pub struct Timer {
    pub id: i32,
    pub callback: ObjId,
    pub interval: i32,
    pub one_shot: bool,
}

/// The table of scheduled callbacks of one worker.
pub struct Timers {
    timers: Vec<Timer>,
    next_id: i32,
}

/// A timed-callback scheduling error.
#[derive(Debug, Clone, Copy, PartialEq, Eq, Structural)]
pub enum TimerError {
    /// Fewer arguments than the call needs.
    NotEnoughArguments,
    /// The callback argument is not an object.
    CallbackNotAnObject,
    /// The id space is exhausted.
    TooManyTimers,
    /// A numeric argument is an object: coercing it would need its
    /// primitive hook.
    ArgumentAnObject,
}

impl Timers {
    pub closed spec fn spec_timers(&self) -> Seq<Timer> {
        self.timers@
    }

    pub fn new() -> (r: Self)
        ensures
            r.spec_timers().len() == 0,
    {
        Timers { timers: Vec::new(), next_id: 1 }
    }

    /// Schedules a callback, returning the fresh timer id.
    pub fn add_timer(&mut self, callback: ObjId, interval: i32, one_shot: bool)
        -> (r: Result<i32, TimerError>)
        ensures
            match r {
                Ok(id) => final(self).spec_timers() == old(self).spec_timers().push(
                    Timer { id, callback, interval, one_shot }),
                Err(TimerError::TooManyTimers) => final(self).spec_timers()
                    == old(self).spec_timers(),
                Err(_) => false,
            },
    {
        if self.next_id == i32::MAX {
            return Err(TimerError::TooManyTimers);
        }
        let id = self.next_id;
        self.next_id = self.next_id + 1;
        self.timers.push(Timer { id, callback, interval, one_shot });
        Ok(id)
    }

    /// How many timers are scheduled.
    pub fn count(&self) -> (r: usize)
        ensures
            r == self.spec_timers().len(),
    {
        self.timers.len()
    }

    /// The timer at the given position, in schedule order.
    pub fn get(&self, i: usize) -> (r: Option<Timer>)
        ensures
            match r {
                Some(tm) => i < self.spec_timers().len() && tm == self.spec_timers()[i as int],
                None => i >= self.spec_timers().len(),
            },
    {
        if i < self.timers.len() {
            Some(self.timers[i])
        } else {
            None
        }
    }

    /// Cancels every timer with the given id: what remains is exactly
    /// the old table without them, in its old order.
    pub fn remove(&mut self, id: i32)
        ensures
            final(self).spec_timers()
                == old(self).spec_timers().filter(|t: Timer| t.id != id),
    {
        let n = self.timers.len();
        let mut out: Vec<Timer> = Vec::new();
        let mut i: usize = 0;
        while i < n
            invariant
                i <= n,
                n == old(self).spec_timers().len(),
                self.timers@ == old(self).spec_timers(),
                out@ == old(self).spec_timers().take(i as int).filter(
                    |t: Timer| t.id != id),
            decreases n - i,
        {
            proof {
                reveal(Seq::filter);
                assert(old(self).spec_timers().take(i as int + 1).drop_last()
                    =~= old(self).spec_timers().take(i as int));
                assert(old(self).spec_timers().take(i as int + 1).last()
                    == old(self).spec_timers()[i as int]);
            }
            let t = self.timers[i];
            if t.id != id {
                out.push(t);
            }
            i = i + 1;
        }
        proof {
            assert(old(self).spec_timers().take(n as int) =~= old(self).spec_timers());
        }
        self.timers = out;
    }
}

/// What scheduling a timer from call arguments does: the table gains
/// exactly one timer carrying the returned fresh id, the callback
/// object, the coerced interval, and the repeat flag.
pub open spec fn spec_timer_registered(tbl: Seq<Vec<u8>>, pre: Seq<Timer>,
    post: Seq<Timer>, args: Seq<Value>, one_shot: bool, r: Value) -> bool {
    &&& r is Integer
    &&& post == pre.push(Timer {
        id: r->Integer_0,
        callback: args[0]->Object_0,
        interval: crate::value::spec_to_i32(tbl, args[1]),
        one_shot,
    })
}

/// Schedules a repeating callback: the first argument must be the
/// callback object and the second its interval; an object interval
/// would need its primitive hook and is an explicit error. Extra
/// arguments are the callback's parameters, which this table does not
/// retain.
pub fn set_interval(timers: &mut Timers, tbl: &StringTable, args: &Vec<Value>)
    -> (r: Result<Value, TimerError>)
    ensures
        args@.len() < 2 ==> r == Err::<Value, TimerError>(TimerError::NotEnoughArguments),
        args@.len() >= 2 && !(args@[0] is Object)
            ==> r == Err::<Value, TimerError>(TimerError::CallbackNotAnObject),
        args@.len() >= 2 && args@[0] is Object && args@[1] is Object
            ==> r == Err::<Value, TimerError>(TimerError::ArgumentAnObject),
        r is Err ==> final(timers).spec_timers() == old(timers).spec_timers(),
        r is Ok ==> args@.len() >= 2 && args@[0] is Object && !(args@[1] is Object)
            && spec_timer_registered(tbl.spec_strings(), old(timers).spec_timers(),
                final(timers).spec_timers(), args@, false, r.unwrap()),
{
    add_timer_from_args(timers, tbl, args, false)
}

/// Schedules a one-shot callback, as `set_interval` does.
pub fn set_timeout(timers: &mut Timers, tbl: &StringTable, args: &Vec<Value>)
    -> (r: Result<Value, TimerError>)
    ensures
        args@.len() < 2 ==> r == Err::<Value, TimerError>(TimerError::NotEnoughArguments),
        args@.len() >= 2 && !(args@[0] is Object)
            ==> r == Err::<Value, TimerError>(TimerError::CallbackNotAnObject),
        args@.len() >= 2 && args@[0] is Object && args@[1] is Object
            ==> r == Err::<Value, TimerError>(TimerError::ArgumentAnObject),
        r is Err ==> final(timers).spec_timers() == old(timers).spec_timers(),
        r is Ok ==> args@.len() >= 2 && args@[0] is Object && !(args@[1] is Object)
            && spec_timer_registered(tbl.spec_strings(), old(timers).spec_timers(),
                final(timers).spec_timers(), args@, true, r.unwrap()),
{
    add_timer_from_args(timers, tbl, args, true)
}

fn add_timer_from_args(timers: &mut Timers, tbl: &StringTable, args: &Vec<Value>,
    one_shot: bool) -> (r: Result<Value, TimerError>)
    ensures
        args@.len() < 2 ==> r == Err::<Value, TimerError>(TimerError::NotEnoughArguments),
        args@.len() >= 2 && !(args@[0] is Object)
            ==> r == Err::<Value, TimerError>(TimerError::CallbackNotAnObject),
        args@.len() >= 2 && args@[0] is Object && args@[1] is Object
            ==> r == Err::<Value, TimerError>(TimerError::ArgumentAnObject),
        r is Err ==> final(timers).spec_timers() == old(timers).spec_timers(),
        r is Ok ==> args@.len() >= 2 && args@[0] is Object && !(args@[1] is Object)
            && spec_timer_registered(tbl.spec_strings(), old(timers).spec_timers(),
                final(timers).spec_timers(), args@, one_shot, r.unwrap()),
{
    if args.len() < 2 {
        return Err(TimerError::NotEnoughArguments);
    }
    let callback = match args[0] {
        Value::Object(o) => o,
        _ => {
            return Err(TimerError::CallbackNotAnObject);
        },
    };
    let iv = args[1];
    let interval = match iv {
        Value::Object(_) => {
            return Err(TimerError::ArgumentAnObject);
        },
        _ => crate::value::to_i32(tbl, &iv),
    };
    match timers.add_timer(callback, interval, one_shot) {
        Ok(id) => Ok(Value::Integer(id)),
        Err(e) => Err(e),
    }
}

/// Cancels the timer named by the first argument's integer coercion; an
/// object id would need its primitive hook and is an explicit error.
pub fn clear_interval(timers: &mut Timers, tbl: &StringTable, args: &Vec<Value>)
    -> (r: Result<Value, TimerError>)
    ensures
        args@.len() < 1 ==> r == Err::<Value, TimerError>(TimerError::NotEnoughArguments)
            && final(timers).spec_timers() == old(timers).spec_timers(),
        args@.len() >= 1 && args@[0] is Object
            ==> r == Err::<Value, TimerError>(TimerError::ArgumentAnObject)
                && final(timers).spec_timers() == old(timers).spec_timers(),
        args@.len() >= 1 && !(args@[0] is Object)
            ==> r == Ok::<Value, TimerError>(Value::Undefined)
                && final(timers).spec_timers() == old(timers).spec_timers().filter(
                    |t: Timer| t.id != crate::value::spec_to_i32(tbl.spec_strings(),
                        args@[0])),
{
    if args.len() < 1 {
        return Err(TimerError::NotEnoughArguments);
    }
    let iv = args[0];
    let id = match iv {
        Value::Object(_) => {
            return Err(TimerError::ArgumentAnObject);
        },
        _ => crate::value::to_i32(tbl, &iv),
    };
    timers.remove(id);
    Ok(Value::Undefined)
}

/// Cancels a timeout, as `clear_interval` does.
pub fn clear_timeout(timers: &mut Timers, tbl: &StringTable, args: &Vec<Value>)
    -> (r: Result<Value, TimerError>)
    ensures
        args@.len() < 1 ==> r == Err::<Value, TimerError>(TimerError::NotEnoughArguments)
            && final(timers).spec_timers() == old(timers).spec_timers(),
        args@.len() >= 1 && args@[0] is Object
            ==> r == Err::<Value, TimerError>(TimerError::ArgumentAnObject)
                && final(timers).spec_timers() == old(timers).spec_timers(),
        args@.len() >= 1 && !(args@[0] is Object)
            ==> r == Ok::<Value, TimerError>(Value::Undefined)
                && final(timers).spec_timers() == old(timers).spec_timers().filter(
                    |t: Timer| t.id != crate::value::spec_to_i32(tbl.spec_strings(),
                        args@[0])),
{
    clear_interval(timers, tbl, args)
}

/// The milliseconds elapsed between the start instant and now, truncated
/// into 32 bits as the timer interface reports it.
pub fn timer_value(now_ms: u64, start_ms: u64) -> (r: u32)
    ensures
        r == (if now_ms >= start_ms {
            crate::value::spec_u32_of_i32(crate::value::spec_i32_of_u32(
                ((now_ms - start_ms) % 0x1_0000_0000) as u32))
        } else {
            0u32
        }),
{
    if now_ms >= start_ms {
        let d = ((now_ms - start_ms) % 0x1_0000_0000) as u32;
        crate::value::u32_of_i32(crate::value::i32_of_u32(d))
    } else {
        0
    }
}

/// The fully qualified form of a class name: `ns::name`, or just the
/// local name in the public namespace.
pub open spec fn spec_qualified(ns: Seq<u8>, name: Seq<u8>) -> Seq<u8> {
    if ns.len() == 0 {
        name
    } else {
        ns + seq![58u8, 58u8] + name
    }
}

/// Builds the fully qualified form of a class name.
pub fn qualified_name(ns: &Vec<u8>, name: &Vec<u8>) -> (r: Vec<u8>)
    ensures
        r@ == spec_qualified(ns@, name@),
{
    let mut out: Vec<u8> = Vec::new();
    if ns.len() > 0 {
        let mut i: usize = 0;
        let n = ns.len();
        while i < n
            invariant
                i <= n,
                n == ns@.len(),
                out@ =~= ns@.take(i as int),
            decreases n - i,
        {
            out.push(ns[i]);
            i = i + 1;
        }
        out.push(58);
        out.push(58);
    }
    let m = name.len();
    let mut j: usize = 0;
    let ghost base = out@;
    while j < m
        invariant
            j <= m,
            m == name@.len(),
            out@ =~= base + name@.take(j as int),
        decreases m - j,
    {
        out.push(name[j]);
        j = j + 1;
    }
    proof {
        if ns@.len() == 0 {
            assert(out@ =~= spec_qualified(ns@, name@));
        } else {
            assert(base =~= ns@ + seq![58u8, 58u8]);
            assert(out@ =~= spec_qualified(ns@, name@));
        }
    }
    out
}

} // verus!
