//! Compiling event calls.
use vstd::prelude::*;
use crate::types::compile::condition_bytes::push_le4;
use crate::types::compile::condition_spec::le4;
use crate::types::compile::event_spec::{arg_buffer, arg_buffers, char_utf16le, event_from_text, utf16le};
use crate::types::structs::{Buffer, Event, SpecBuffer, views_of};
use crate::utils::defs::{defs_has_name, last_id_of};
use crate::utils::important_comp_data::ImportantCompData;
use crate::utils::strings::{contains_text, parse_in, parse_int, replace_all, replace_text, starts_with, text_contains, text_starts_with};
use crate::utils::text::{chars_of, split_chars, split_on};
use crate::utils::text_writer::string_views;
use vstd::string::StrSliceExecFns;

verus! {

/// Appends the little-endian UTF-16 bytes of a text.
fn push_utf16le(bytes: &mut Vec<u8>, s: &str)
    ensures
        final(bytes)@ == old(bytes)@ + utf16le(s@),
{
    let cs = chars_of(s);
    let mut i: usize = 0;
    proof {
        assert(s@.take(0) =~= Seq::<char>::empty());
        assert(bytes@ =~= old(bytes)@ + utf16le(s@.take(0)));
    }
    while i < cs.len()
        invariant
            0 <= i <= cs@.len(),
            cs@ == s@,
            bytes@ == old(bytes)@ + utf16le(s@.take(i as int)),
        decreases cs@.len() - i,
    {
        let v = cs[i] as u32;
        let ghost before = bytes@;
        if v < 0x10000 {
            bytes.push((v % 256) as u8);
            bytes.push((v / 256) as u8);
        } else {
            let hi = 0xD800 + (v - 0x10000) / 0x400;
            let lo = 0xDC00 + (v - 0x10000) % 0x400;
            bytes.push((hi % 256) as u8);
            bytes.push((hi / 256) as u8);
            bytes.push((lo % 256) as u8);
            bytes.push((lo / 256) as u8);
        }
        proof {
            assert(s@.take(i + 1).drop_last() =~= s@.take(i as int));
            assert(s@.take(i + 1).last() == cs@[i as int]);
            assert(bytes@ =~= before + char_utf16le(cs@[i as int]));
        }
        i = i + 1;
    }
    proof {
        assert(s@.take(cs@.len() as int) =~= s@);
    }
}

/// The buffer bytes of one argument: `Some(None)` for an empty one, `None`
/// on an unreadable one.
fn arg_bytes(arg: &str) -> (r: Option<Option<Vec<u8>>>)
    ensures
        match r {
            Some(Some(b)) => arg_buffer(arg@) == Some(Some(b@)),
            Some(None) => arg_buffer(arg@) == Some(None::<Seq<u8>>),
            None => arg_buffer(arg@) is None,
        },
{
    proof {
        reveal_strlit(" ");
        reveal_strlit("\"");
        reveal_strlit("");
    }
    let no_spaces = replace_text(arg, " ", "");
    proof {
        assert(""@ =~= Seq::<char>::empty());
    }
    if no_spaces.as_str().unicode_len() == 0 {
        return Some(None);
    }
    if text_starts_with(arg, "\"") {
        let unquoted = replace_text(arg, "\"", "");
        let mut bytes: Vec<u8> = Vec::new();
        bytes.push(0xA5);
        push_utf16le(&mut bytes, unquoted.as_str());
        bytes.push(0);
        bytes.push(0);
        bytes.push(0xA1);
        proof {
            assert(bytes@ =~= seq![0xA5u8] + utf16le(replace_all(arg@, "\""@, seq![])) + seq![0u8, 0u8, 0xA1u8]);
        }
        return Some(Some(bytes));
    }
    match parse_int(arg, i64::MIN, i64::MAX) {
        Some(v) => {
            if v > i64::MAX - 64 {
                return None;
            }
            if -64 <= v && v <= 63 {
                let mut bytes: Vec<u8> = Vec::new();
                bytes.push((v + 64) as u8);
                bytes.push(0xA1);
                proof {
                    assert(bytes@ =~= seq![(v + 64) as u8, 0xA1u8]);
                }
                Some(Some(bytes))
            } else {
                match parse_int(arg, i32::MIN as i64, i32::MAX as i64) {
                    Some(w) => {
                        let mut bytes: Vec<u8> = Vec::new();
                        bytes.push(0x82);
                        push_le4(&mut bytes, w as u32);
                        bytes.push(0xA1);
                        proof {
                            assert(bytes@ =~= seq![0x82u8] + le4(w as u32) + seq![0xA1u8]);
                        }
                        Some(Some(bytes))
                    },
                    None => None,
                }
            }
        },
        None => None,
    }
}

/// Once an argument fails, the argument list fails.
proof fn lemma_arg_buffers_none(args: Seq<Seq<char>>, i: nat, n: nat)
    requires
        i <= n,
        arg_buffers(args, i) is None,
    ensures
        arg_buffers(args, n) is None,
    decreases n,
{
    if n > i {
        lemma_arg_buffers_none(args, i, (n - 1) as nat);
    }
}

impl Event {
    /// The event of an event call `Name(arg, ...)` (a line without spaces):
    /// the id of the last event definition named `Name`, the argument count
    /// (commas plus two) and one buffer per non-empty argument. `None` on an
    /// unknown name, an unreadable id or argument, or a missing `(`.
    #[verifier::loop_isolation(false)]
    pub fn compile(event_str: &String, important_comp_data: &mut ImportantCompData) -> (r: Option<Event>)
        ensures
            *final(important_comp_data) == *old(important_comp_data),
            match event_from_text(event_str@, old(important_comp_data)@.event_defs) {
                Some(e) => r matches Some(ev) && ev@ == e,
                None => r is None,
            },
    {
        proof {
            reveal_strlit("()");
            reveal_strlit("(");
            reveal_strlit(")");
            reveal_strlit("");
        }
        let s = event_str.as_str();
        let parts = split_chars(s, '(');
        proof {
            crate::utils::text::lemma_split_nonempty(s@, '(');
            assert(string_views(parts@)[0] == parts@[0]@);
        }
        let event_name = parts[0].as_str();
        if !important_comp_data.event_defs.has_name(event_name) {
            return None;
        }
        let event_id: u32 = match important_comp_data.event_defs.last_id(event_name, 0, u32::MAX as i64) {
            Some(Some(v)) => v as u32,
            Some(None) => 0,
            None => return None,
        };
        let commas = split_chars(s, ',').len() as u32;
        if commas == u32::MAX {
            return None;
        }
        let mut arg_amount = commas + 1;
        if arg_amount == 2 && text_contains(event_name, "()") {
            arg_amount = 1;
        }
        if parts.len() < 2 {
            return None;
        }
        proof {
            assert(string_views(parts@)[1] == parts@[1]@);
        }
        let a = replace_text(parts[1].as_str(), "(", "");
        let b = replace_text(a.as_str(), ")", "");
        proof {
            assert(""@ =~= Seq::<char>::empty());
        }
        let args = split_chars(b.as_str(), ',');
        let ghost av = string_views(args@);
        let mut buffers: Vec<Buffer> = Vec::new();
        let mut i: usize = 0;
        proof {
            assert(views_of(buffers@) =~= Seq::<SpecBuffer>::empty());
        }
        while i < args.len()
            invariant
                0 <= i <= args@.len(),
                av == string_views(args@),
                arg_buffers(av, i as nat) == Some(views_of(buffers@)),
            decreases args@.len() - i,
        {
            proof {
                assert(av[i as int] == args@[i as int]@);
            }
            match arg_bytes(args[i].as_str()) {
                Some(Some(data)) => {
                    let ghost before = views_of(buffers@);
                    let ghost dv = data@;
                    let length = data.len() as u32;
                    buffers.push(Buffer { struct_type: 6, length, data });
                    proof {
                        assert(views_of(buffers@) =~= before.push(
                            SpecBuffer { struct_type: 6, length: dv.len() as u32, data: dv },
                        ));
                    }
                },
                Some(None) => {},
                None => {
                    proof {
                        lemma_arg_buffers_none(av, (i + 1) as nat, av.len());
                    }
                    return None;
                },
            }
            i = i + 1;
        }
        let e = Event {
            struct_type: 7,
            version: 2,
            event_id,
            arg_amount,
            arg_evaluators: None,
            arg_buffers: Some(buffers),
        };
        Some(e)
    }
}

} // verus!
