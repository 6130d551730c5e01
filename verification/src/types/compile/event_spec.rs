//! Compiling event calls: `Name(arg, ...)` into an event with argument
//! buffers.
use vstd::prelude::*;
use crate::types::compile::condition_spec::le4;
use crate::types::structs::{SpecBuffer, SpecEvent};
use crate::utils::defs::{defs_has_name, last_id_of};
use crate::utils::strings::{contains_text, parse_in, replace_all, starts_with};
use crate::utils::text::split_on;

verus! {

/// The little-endian UTF-16 bytes of one character.
pub open spec fn char_utf16le(c: char) -> Seq<u8> {
    let v = c as u32;
    if v < 0x10000 {
        seq![(v % 256) as u8, (v / 256) as u8]
    } else {
        let hi = 0xD800 + (v - 0x10000) / 0x400;
        let lo = 0xDC00 + (v - 0x10000) % 0x400;
        seq![(hi % 256) as u8, (hi / 256) as u8, (lo % 256) as u8, (lo / 256) as u8]
    }
}

/// The little-endian UTF-16 bytes of a text.
pub open spec fn utf16le(s: Seq<char>) -> Seq<u8>
    decreases s.len(),
{
    if s.len() == 0 {
        seq![]
    } else {
        utf16le(s.drop_last()) + char_utf16le(s.last())
    }
}

/// The buffer of one argument: `Some(None)` for an empty one; a quoted
/// string as `0xA5`, its UTF-16 bytes and a terminating zero unit; a number
/// from -64 to 63 as one byte (its value plus 64); any other `i32` as `0x82` and four
/// bytes; each ended by `0xA1`. `None` on anything else.
pub open spec fn arg_buffer(arg: Seq<char>) -> Option<Option<Seq<u8>>> {
    if replace_all(arg, " "@, seq![]).len() == 0 {
        Some(None)
    } else if starts_with(arg, "\""@) {
        Some(Some(seq![0xA5u8] + utf16le(replace_all(arg, "\""@, seq![])) + seq![0u8, 0u8, 0xA1u8]))
    } else {
        match parse_in(arg, i64::MIN as int, i64::MAX as int) {
            Some(v) => if v + 64 > i64::MAX {
                None
            } else if -64 <= v <= 63 {
                Some(Some(seq![(v + 64) as u8, 0xA1u8]))
            } else {
                match parse_in(arg, i32::MIN as int, i32::MAX as int) {
                    Some(w) => Some(Some(seq![0x82u8] + le4(w as u32) + seq![0xA1u8])),
                    None => None,
                }
            },
            None => None,
        }
    }
}

/// The buffers of the first `n` arguments, empty arguments left out.
pub open spec fn arg_buffers(args: Seq<Seq<char>>, n: nat) -> Option<Seq<SpecBuffer>>
    decreases n,
{
    if n == 0 {
        Some(seq![])
    } else {
        match arg_buffers(args, (n - 1) as nat) {
            Some(prev) => match arg_buffer(args[n - 1]) {
                Some(Some(data)) => Some(
                    prev.push(SpecBuffer { struct_type: 6, length: data.len() as u32, data }),
                ),
                Some(None) => Some(prev),
                None => None,
            },
            None => None,
        }
    }
}

/// The event of an event call `Name(arg, ...)`: the id of the last event
/// definition named `Name`, the argument count (commas plus two) and the
/// argument buffers. `None` on an unknown name, an unreadable id or
/// argument, or a missing `(`.
pub open spec fn event_from_text(s: Seq<char>, event_defs: Seq<(Seq<char>, Seq<char>)>) -> Option<SpecEvent> {
    let name = split_on(s, '(')[0];
    if !defs_has_name(event_defs, name) {
        None
    } else {
        match last_id_of(event_defs, name, 0, u32::MAX as int) {
            Some(id) => {
                let event_id: u32 = match id {
                    Some(v) => v as u32,
                    None => 0,
                };
                let commas = split_on(s, ',').len() as u32;
                if commas == u32::MAX {
                    None
                } else {
                    let arg_amount: u32 = if commas + 1 == 2 && contains_text(name, "()"@) {
                        1
                    } else {
                        (commas + 1) as u32
                    };
                    let parts = split_on(s, '(');
                    if parts.len() < 2 {
                        None
                    } else {
                        let args = split_on(
                            replace_all(replace_all(parts[1], "("@, seq![]), ")"@, seq![]),
                            ',',
                        );
                        match arg_buffers(args, args.len()) {
                            Some(buffers) => Some(
                                SpecEvent {
                                    struct_type: 7,
                                    version: 2,
                                    event_id,
                                    arg_amount,
                                    arg_evaluators: None,
                                    arg_buffers: Some(buffers),
                                },
                            ),
                            None => None,
                        }
                    }
                }
            },
            None => None,
        }
    }
}

} // verus!
