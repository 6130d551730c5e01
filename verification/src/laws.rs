//! Properties that relate the library's operations to one another.
use vstd::prelude::*;
use crate::types::compile::condition_spec::{
    condition_bytes, le4, token_bytes, PostfixState, postfix_run, precedence, reversed,
};
use crate::types::compile::event_spec::{arg_buffer, arg_buffers, event_from_text};
use crate::types::decompile::condition_spec::{
    ast_build, cond_stack, condition_line, infix, is_binary_token, le_u32, render, SpecNode,
    SpecNodeType,
};
use crate::types::decompile::text_spec::{event_arg_text, event_args_text, event_line, le_i32, le_u16_units, utf16_decode};
use crate::types::compile::event_spec::{char_utf16le, utf16le};
use crate::utils::defs::{defs_has_name, defs_lookup, last_id_of};
use crate::utils::important_comp_data::{SpecCompData, next_id_data};
use crate::utils::important_data::{first_index_of, spec_type_by_name, spec_type_name};
use crate::utils::strings::{
    all_digits, digits_value, is_digit, occurs_at, parse_decimal, parse_in, replace_all,
    starts_with, contains_text,
};
use crate::utils::text::{dec_int, dec_nat, digit_char, lemma_split_nonempty, split_on};
use crate::types::compile::write_spec::{
    be16, be32, header_writable, spec_write_buffer, spec_write_buffers, spec_write_condition,
    spec_write_evaluator, spec_write_evaluators, spec_write_event, spec_write_header,
    spec_write_shared_string, spec_write_shared_strings, event_type_id, is_event_name,
};
use crate::types::decompile::read_spec::{
    name_buffer, name_condition, name_evaluator, name_event, name_event6, spec_read_buffer, spec_read_buffers,
    spec_read_condition, spec_read_evaluator, spec_read_evaluators, spec_read_event, spec_read_header,
    spec_read_shared_string, spec_read_shared_strings, uint_field,
};
use crate::types::structs::{SpecBuffer, SpecCondition, SpecEvaluator, SpecEvent, SpecHeader, SpecSharedString};
use crate::utils::binary_reader::pow256;
use crate::utils::binary_writer::{be_encode, law_be_roundtrip, law_read_string_after_write, law_read_uint_after_write};
use crate::utils::important_data::SpecImportantData;
use vstd::utf8::encode_utf8;
use crate::dlse_esd::{compiled_path, decompiled_path};

verus! {

/// The type that `get_type_by_name` finds for a name is the type that
/// `get_type_name` names so.
pub proof fn law_type_name_of_type_by_name(table: Seq<Seq<char>>, name: Seq<char>)
    ensures
        spec_type_by_name(table, name) matches Some(id) ==> spec_type_name(table, id) == Some(name),
{
    reveal(first_index_of);
    if exists|i: int| 0 <= i < table.len() && table[i] == name {
        let k = choose|i: int| 0 <= i < table.len() && table[i] == name;
        lemma_least_witness(table, name, k);
    }
}

/// A name that occurs in a table has a first occurrence.
proof fn lemma_least_witness(table: Seq<Seq<char>>, name: Seq<char>, k: int)
    requires
        0 <= k < table.len(),
        table[k] == name,
    ensures
        exists|i: int|
            0 <= i < table.len() && table[i] == name && forall|j: int| 0 <= j < i ==> table[j] != name,
    decreases k,
{
    if exists|j: int| 0 <= j < k && table[j] == name {
        let j = choose|j: int| 0 <= j < k && table[j] == name;
        lemma_least_witness(table, name, j);
    } else {
        assert(forall|j: int| 0 <= j < k ==> table[j] != name);
    }
}

/// Once `should_read_data` or `should_write_data` has been asked about an id,
/// the id is marked: asking again answers `false`.
pub proof fn law_marked_once(ids: Seq<u32>, id: u32)
    ensures
        (if ids.contains(id) { ids } else { ids.push(id) }).contains(id),
{
    if !ids.contains(id) {
        assert(ids.push(id)[ids.len() as int] == id);
    }
}

/// `get_next_id` hands out strictly increasing ids: each one more than the
/// last.
pub proof fn law_next_ids_increase(c: SpecCompData)
    requires
        c.highest_id < u32::MAX - 1,
    ensures
        next_id_data(c).highest_id == c.highest_id + 1,
        next_id_data(next_id_data(c)).highest_id == next_id_data(c).highest_id + 1,
{
}

/// The digit characters are digits with their values.
proof fn lemma_digit_char(d: nat)
    requires
        d < 10,
    ensures
        is_digit(digit_char(d)),
        (digit_char(d) as u32) - ('0' as u32) == d,
{
}

/// The decimal digits of `n` are a run of digits of value `n`.
pub(crate) proof fn lemma_dec_nat_digits(n: nat)
    ensures
        all_digits(dec_nat(n)),
        digits_value(dec_nat(n)) == n,
    decreases n,
{
    if n < 10 {
        lemma_digit_char(n);
        assert(dec_nat(n).drop_last() =~= Seq::<char>::empty());
        assert(dec_nat(n).last() == digit_char(n));
        assert(digits_value(Seq::<char>::empty()) == 0);
    } else {
        lemma_dec_nat_digits(n / 10);
        lemma_digit_char(n % 10);
        let s = dec_nat(n);
        assert(s.drop_last() =~= dec_nat(n / 10));
        assert(s.last() == digit_char(n % 10));
        assert(n == (n / 10) * 10 + n % 10);
        assert forall|i: int| 0 <= i < s.len() implies is_digit(#[trigger] s[i]) by {
            if i < s.len() - 1 {
                assert(s[i] == dec_nat(n / 10)[i]);
            }
        }
    }
}

/// What decompiling prints as a number, compiling reads back as that
/// number, for every integer type whose range holds it.
pub proof fn law_parse_printed_number(v: int, lo: int, hi: int)
    requires
        lo <= v <= hi,
        lo <= 0,
    ensures
        parse_in(dec_int(v), lo, hi) == Some(v),
{
    if v < 0 {
        let m = (-v) as nat;
        lemma_dec_nat_digits(m);
        let s = dec_int(v);
        assert(s.drop_first() =~= dec_nat(m));
    } else {
        lemma_dec_nat_digits(v as nat);
        let s = dec_nat(v as nat);
        lemma_digit_char(0);
        assert(is_digit(s[0]));
    }
}

/// A printed number holds no space, quote, comma or parenthesis.
pub(crate) proof fn lemma_dec_int_plain(v: int)
    ensures
        dec_int(v).len() > 0,
        forall|i: int| 0 <= i < dec_int(v).len() ==> dec_int(v)[i] != ' ' && dec_int(v)[i] != '"'
            && dec_int(v)[i] != '(' && dec_int(v)[i] != ')' && dec_int(v)[i] != ',',
{
    if v < 0 {
        lemma_dec_nat_digits((-v) as nat);
    } else {
        lemma_dec_nat_digits(v as nat);
    }
}

/// Replacing a pattern that does not occur leaves a text unchanged.
proof fn lemma_replace_absent(s: Seq<char>, c: char)
    requires
        forall|i: int| 0 <= i < s.len() ==> s[i] != c,
    ensures
        replace_all(s, seq![c], seq![]) == s,
    decreases s.len(),
{
    if s.len() > 0 {
        assert(s.take(1) != seq![c]) by {
            assert(s.take(1)[0] == s[0]);
        }
        lemma_replace_absent(s.skip(1), c);
        assert(seq![s[0]] + s.skip(1) =~= s);
    }
}

/// The four little-endian bytes of a `u32` read back as that `u32`.
pub proof fn law_le4_roundtrip(v: u32)
    ensures
        le4(v).len() == 4,
        le_u32(le4(v)) == v,
{
    let b = le4(v);
    assert(b[0] + 256 * b[1] + 65536 * b[2] + 16777216 * b[3] == v) by (nonlinear_arith)
        requires
            b[0] == v % 256,
            b[1] == (v / 256) % 256,
            b[2] == (v / 65536) % 256,
            b[3] == v / 16777216,
            v < 0x1_0000_0000,
    ;
}


/// A text without the character `c` contains no `c`-text.
pub(crate) proof fn lemma_no_char_not_contained(s: Seq<char>, c: char)
    requires
        forall|i: int| 0 <= i < s.len() ==> s[i] != c,
    ensures
        !contains_text(s, seq![c]),
{
    assert forall|i: int| !occurs_at(s, seq![c], i) by {
        if occurs_at(s, seq![c], i) {
            assert(s.subrange(i, i + 1)[0] == s[i]);
        }
    }
}

/// An `i32` event argument that compiling writes into a buffer, decompiling
/// prints back as the same text.
pub proof fn law_int_arg_roundtrip(v: int)
    requires
        i32::MIN <= v <= i32::MAX,
    ensures
        arg_buffer(dec_int(v)) matches Some(Some(b)) && event_arg_text(b) == Some(dec_int(v)),
{
    reveal_strlit(" ");
    reveal_strlit("\"");
    let s = dec_int(v);
    lemma_dec_int_plain(v);
    lemma_replace_absent(s, ' ');
    assert(" "@ =~= seq![' ']);
    assert("\""@ =~= seq!['"']);
    assert(!starts_with(s, "\""@)) by {
        if starts_with(s, "\""@) {
            assert(s.subrange(0, 1)[0] == s[0]);
        }
    }
    law_parse_printed_number(v, i64::MIN as int, i64::MAX as int);
    if -64 <= v <= 63 {
        let b = seq![(v + 64) as u8, 0xA1u8];
        assert(arg_buffer(s) == Some(Some(b)));
        assert(b.drop_last() =~= seq![(v + 64) as u8]);
    } else {
        law_parse_printed_number(v, i32::MIN as int, i32::MAX as int);
        let w = v as u32;
        let x: i32 = v as i32;
        assert(x as int == v);
        assert(w == x as u32);
        assert((x as u32) as int == if x < 0 { x + 0x1_0000_0000 } else { x as int }) by (bit_vector);
        law_le4_roundtrip(w);
        let b = seq![0x82u8] + le4(w) + seq![0xA1u8];
        assert(arg_buffer(s) == Some(Some(b)));
        assert(b.drop_last().drop_first() =~= le4(w));
        assert(b.drop_last().len() == 5);
    }
}

/// A number up to `u32::MAX` in a condition that compiling writes (when no
/// function has that name), decompiling reads back as the same text.
pub proof fn law_condition_number_roundtrip(v: nat, funcs: Seq<(Seq<char>, Seq<char>)>, funcs2: Seq<(Seq<char>, Seq<char>)>)
    requires
        v <= u32::MAX,
        !defs_has_name(funcs, dec_nat(v)),
    ensures
        token_bytes(dec_nat(v), funcs) matches Some(b) && cond_stack(b.push(0xA1), 0, seq![], funcs2)
            == Some(seq![dec_nat(v)]),
{
    reveal_strlit("(");
    reveal_strlit("+");
    reveal_strlit("N");
    reveal_strlit("-");
    reveal_strlit("*");
    reveal_strlit("/");
    reveal_strlit("<=");
    reveal_strlit(">=");
    reveal_strlit("<");
    reveal_strlit(">");
    reveal_strlit("==");
    reveal_strlit("!=");
    reveal_strlit("and");
    reveal_strlit("or");
    reveal_strlit("not");
    let s = dec_nat(v);
    lemma_dec_nat_digits(v);
    lemma_digit_char(0);
    assert(is_digit(s[0]));
    assert(crate::types::compile::condition_spec::op_byte(s) is None);
    lemma_dec_int_plain(v as int);
    assert(dec_int(v as int) == s);
    assert("("@ =~= seq!['(']);
    lemma_no_char_not_contained(s, '(');
    law_parse_printed_number(v as int, i64::MIN as int, i64::MAX as int);
    reveal_with_fuel(cond_stack, 3);
    if v + 64 <= 0x7F {
        let b = seq![(v + 64) as u8];
        assert(token_bytes(s, funcs) == Some(b));
        assert(b.push(0xA1)[0] == (v + 64) as u8);
        assert(seq![].push(dec_nat(v)) =~= seq![dec_nat(v)]);
    } else {
        let w = v as u32;
        law_le4_roundtrip(w);
        let b = seq![0x82u8] + le4(w);
        assert(token_bytes(s, funcs) == Some(b));
        let code = b.push(0xA1);
        assert(code.subrange(1, 5) =~= le4(w));
        assert(seq![].push(dec_nat(v)) =~= seq![dec_nat(v)]);
    }
}


/// Reading `n` big-endian bytes where a writer put the encoding of `v`,
/// whatever comes before and after, gives `v` and the position after it.
pub(crate) proof fn lemma_field_after_write(before: Seq<u8>, v: nat, n: nat, after: Seq<u8>)
    requires
        v < pow256(n),
    ensures
        uint_field(before + be_encode(v, n) + after, before.len() as int, n) == Some(
            (v, (before.len() + n) as int),
        ),
{
    law_read_uint_after_write(before, v, n, after);
    law_be_roundtrip(v, n);
}

/// A shared string written after `before` reads back as itself.
pub proof fn law_shared_string_write_read(s: SpecSharedString, before: Seq<u8>, after: Seq<u8>)
    requires
        s.length == encode_utf8(s.str).len(),
    ensures
        spec_read_shared_string(before + spec_write_shared_string(s) + after, before.len() as int)
            == Some((s, (before.len() + spec_write_shared_string(s).len()) as int)),
{
    let enc = encode_utf8(s.str);
    let all = before + spec_write_shared_string(s) + after;
    lemma_pow256_4();
    assert((enc.len() as u32) as int == enc.len());
    assert(be32((enc.len() as u32) as int) == be_encode(enc.len(), 4));
    let lb = be_encode(enc.len(), 4);
    law_be_roundtrip(enc.len(), 4);
    lemma_field_after_write(before, enc.len(), 4, enc + after);
    assert(all =~= before + lb + (enc + after));
    law_read_string_after_write(before + lb, s.str, after);
    assert(all =~= (before + lb) + enc + after);
    let p1 = before.len() + 4;
    assert(crate::types::decompile::read_spec::u32_field(all, before.len() as int) == Some((enc.len() as u32, p1 as int)));
    let part = all.subrange(p1 as int, (p1 + enc.len()) as int);
    assert(part == enc);
    assert(spec_write_shared_string(s).len() == 4 + enc.len());
}

pub(crate) proof fn lemma_pow256_4()
    ensures
        pow256(2) == 65536,
        pow256(4) == 0x1_0000_0000,
{
    reveal_with_fuel(pow256, 5);
}

/// The first `k` strings of a table written one after the other read back
/// as themselves.
proof fn lemma_shared_strings_write_read(strings: Seq<SpecSharedString>, k: nat, before: Seq<u8>, after: Seq<u8>)
    requires
        k <= strings.len(),
        forall|i: int| 0 <= i < strings.len() ==> (#[trigger] strings[i]).length == encode_utf8(strings[i].str).len(),
    ensures
        spec_read_shared_strings(before + spec_write_shared_strings(strings) + after, before.len() as int, k)
            == Some((strings.take(k as int), (before.len() + spec_write_shared_strings(strings.take(k as int)).len()) as int)),
    decreases k,
{
    let all = before + spec_write_shared_strings(strings) + after;
    if k == 0 {
        assert(strings.take(0) =~= Seq::<SpecSharedString>::empty());
    } else {
        lemma_shared_strings_write_read(strings, (k - 1) as nat, before, after);
        let head = spec_write_shared_strings(strings.take(k - 1));
        let s = strings[k - 1];
        assert(strings.take(k as int).drop_last() =~= strings.take(k - 1));
        lemma_write_strings_prefix(strings, k);
        let rest = spec_write_shared_strings(strings).subrange(
            (head.len() + spec_write_shared_string(s).len()) as int,
            spec_write_shared_strings(strings).len() as int,
        );
        assert(all =~= (before + head) + spec_write_shared_string(s) + (rest + after));
        law_shared_string_write_read(s, before + head, rest + after);
        assert(strings.take(k as int) =~= strings.take(k - 1).push(s));
    }
}

/// The bytes of the first `k` strings are a prefix of the bytes of the
/// whole table.
proof fn lemma_write_strings_prefix(strings: Seq<SpecSharedString>, k: nat)
    requires
        k <= strings.len(),
    ensures
        spec_write_shared_strings(strings.take(k as int)).len() <= spec_write_shared_strings(strings).len(),
        spec_write_shared_strings(strings) == spec_write_shared_strings(strings.take(k as int))
            + spec_write_shared_strings(strings).subrange(
            spec_write_shared_strings(strings.take(k as int)).len() as int,
            spec_write_shared_strings(strings).len() as int,
        ),
    decreases strings.len() - k,
{
    if k == strings.len() {
        assert(strings.take(k as int) =~= strings);
        assert(spec_write_shared_strings(strings) =~= spec_write_shared_strings(strings) + seq![]);
    } else {
        lemma_write_strings_prefix(strings, k + 1);
        assert(strings.take(k + 1 as int).drop_last() =~= strings.take(k as int));
        let a = spec_write_shared_strings(strings.take(k as int));
        let b = spec_write_shared_strings(strings.take(k + 1 as int));
        let w = spec_write_shared_strings(strings);
        assert(b == a + spec_write_shared_string(strings[k as int]));
        assert(w =~= a + w.subrange(a.len() as int, w.len() as int));
    }
}

/// The magic text is four bytes long.
proof fn lemma_magic_len()
    ensures
        encode_utf8("DLSE"@).len() == 4,
{
    reveal_strlit("DLSE");
    reveal_with_fuel(encode_utf8, 5);
}

/// The bytes of a header: the magic, two `u16`, the numbers of version `3`,
/// the string count and the strings.
proof fn lemma_header_parts(h: SpecHeader)
    requires
        h.magic == "DLSE"@,
    ensures
        ({
            let extra = if h.version == 3 {
                be32(h.unk08.unwrap() as int) + be32(h.transition_count.unwrap() as int) + be32(
                    h.highest_ref_id_plus_one.unwrap() as int,
                )
            } else {
                seq![]
            };
            &&& spec_write_header(h) == encode_utf8(h.magic) + be16(h.unk04 as int) + be16(h.version as int) + extra
                + be16((h.strings.len() as u16) as int) + spec_write_shared_strings(h.strings)
            &&& encode_utf8(h.magic).len() == 4
            &&& be16(h.unk04 as int).len() == 2
            &&& be16(h.version as int).len() == 2
            &&& extra.len() == (if h.version == 3 { 12int } else { 0int })
        }),
{
    lemma_magic_len();
    lemma_pow256_4();
    law_be_roundtrip(h.unk04 as nat, 2);
    law_be_roundtrip(h.version as nat, 2);
    if h.version == 3 {
        law_be_roundtrip(h.unk08.unwrap() as nat, 4);
        law_be_roundtrip(h.transition_count.unwrap() as nat, 4);
        law_be_roundtrip(h.highest_ref_id_plus_one.unwrap() as nat, 4);
    }
}

/// The three numbers of a version `3` header read back after its first
/// eight bytes.
proof fn lemma_header_numbers_read(h: SpecHeader, q: Seq<u8>, rest: Seq<u8>)
    requires
        q.len() == 8,
        h.unk08 is Some,
        h.transition_count is Some,
        h.highest_ref_id_plus_one is Some,
    ensures
        ({
            let all = q + (be32(h.unk08.unwrap() as int) + be32(h.transition_count.unwrap() as int) + be32(
                h.highest_ref_id_plus_one.unwrap() as int,
            )) + rest;
            &&& crate::types::decompile::read_spec::u32_field(all, 8) == Some((h.unk08.unwrap(), 12int))
            &&& crate::types::decompile::read_spec::u32_field(all, 12) == Some((h.transition_count.unwrap(), 16int))
            &&& crate::types::decompile::read_spec::u32_field(all, 16) == Some(
                (h.highest_ref_id_plus_one.unwrap(), 20int),
            )
        }),
{
    lemma_pow256_4();
    let a = be32(h.unk08.unwrap() as int);
    let b = be32(h.transition_count.unwrap() as int);
    let c = be32(h.highest_ref_id_plus_one.unwrap() as int);
    law_be_roundtrip(h.unk08.unwrap() as nat, 4);
    law_be_roundtrip(h.transition_count.unwrap() as nat, 4);
    law_be_roundtrip(h.highest_ref_id_plus_one.unwrap() as nat, 4);
    let all = q + (a + b + c) + rest;
    assert(all =~= q + a + (b + c + rest));
    lemma_field_after_write(q, h.unk08.unwrap() as nat, 4, b + c + rest);
    assert(all =~= (q + a) + b + (c + rest));
    lemma_field_after_write(q + a, h.transition_count.unwrap() as nat, 4, c + rest);
    assert(all =~= (q + a + b) + c + rest);
    lemma_field_after_write(q + a + b, h.highest_ref_id_plus_one.unwrap() as nat, 4, rest);
}

/// A header reads back from its fields.
proof fn lemma_header_from_fields(all: Seq<u8>, h: SpecHeader, p4: int, p6: int)
    requires
        h.magic == "DLSE"@,
        h.unk04 == 2,
        h.version == 0 || h.version == 1 || h.version == 3,
        h.version == 3 ==> (h.unk08 is Some && h.transition_count is Some && h.highest_ref_id_plus_one is Some),
        h.version != 3 ==> (h.unk08 is None && h.transition_count is None && h.highest_ref_id_plus_one is None),
        crate::types::decompile::read_spec::string_field(all, 0, 4) == Some((h.magic, 4int)),
        crate::types::decompile::read_spec::u16_field(all, 4) == Some((h.unk04, 6int)),
        crate::types::decompile::read_spec::u16_field(all, 6) == Some((h.version, 8int)),
        h.version == 3 ==> crate::types::decompile::read_spec::u32_field(all, 8) == Some((h.unk08.unwrap(), 12int)),
        h.version == 3 ==> crate::types::decompile::read_spec::u32_field(all, 12) == Some(
            (h.transition_count.unwrap(), 16int),
        ),
        h.version == 3 ==> crate::types::decompile::read_spec::u32_field(all, 16) == Some(
            (h.highest_ref_id_plus_one.unwrap(), 20int),
        ),
        p4 == (if h.version == 3 { 20int } else { 8int }),
        crate::types::decompile::read_spec::u16_field(all, p4) == Some((h.string_count, p4 + 2)),
        spec_read_shared_strings(all, p4 + 2, h.string_count as nat) == Some((h.strings, p6)),
    ensures
        spec_read_header(all, 0) == Some((h, p6)),
{
}

/// A header written with its magic `DLSE`, `2`, a version among `0`, `1` and
/// `3` (with its three numbers exactly for version `3`), its string count
/// and each string's byte length reads back as itself, whatever follows.
#[verifier::rlimit(100)]
pub proof fn law_header_write_read(h: SpecHeader, after: Seq<u8>)
    requires
        h.magic == "DLSE"@,
        h.unk04 == 2,
        h.version == 0 || h.version == 1 || h.version == 3,
        h.version == 3 <==> (h.unk08 is Some && h.transition_count is Some
            && h.highest_ref_id_plus_one is Some),
        h.version != 3 ==> (h.unk08 is None && h.transition_count is None
            && h.highest_ref_id_plus_one is None),
        h.strings.len() == h.string_count,
        forall|i: int| 0 <= i < h.strings.len() ==> (#[trigger] h.strings[i]).length == encode_utf8(h.strings[i].str).len(),
    ensures
        header_writable(h),
        spec_read_header(spec_write_header(h) + after, 0) == Some((h, spec_write_header(h).len() as int)),
{
    lemma_pow256_4();
    lemma_header_parts(h);
    let magic = encode_utf8(h.magic);
    let t1 = be16(h.unk04 as int);
    let t2 = be16(h.version as int);
    let extra = if h.version == 3 {
        be32(h.unk08.unwrap() as int) + be32(h.transition_count.unwrap() as int) + be32(
            h.highest_ref_id_plus_one.unwrap() as int,
        )
    } else {
        seq![]
    };
    let cnt = be16((h.strings.len() as u16) as int);
    let strs = spec_write_shared_strings(h.strings);
    let all = spec_write_header(h) + after;
    let e: Seq<u8> = Seq::empty();
    assert(crate::types::decompile::read_spec::string_field(all, 0, 4) == Some((h.magic, 4int))) by {
        law_read_string_after_write(e, h.magic, t1 + t2 + extra + cnt + strs + after);
        assert(all =~= e + magic + (t1 + t2 + extra + cnt + strs + after));
    }
    assert(crate::types::decompile::read_spec::u16_field(all, 4) == Some((h.unk04, 6int))) by {
        lemma_field_after_write(magic, h.unk04 as nat, 2, t2 + extra + cnt + strs + after);
        assert(all =~= magic + t1 + (t2 + extra + cnt + strs + after));
    }
    assert(crate::types::decompile::read_spec::u16_field(all, 6) == Some((h.version, 8int))) by {
        lemma_field_after_write(magic + t1, h.version as nat, 2, extra + cnt + strs + after);
        assert(all =~= (magic + t1) + t2 + (extra + cnt + strs + after));
    }
    let q = magic + t1 + t2;
    if h.version == 3 {
        lemma_header_numbers_read(h, q, cnt + strs + after);
        assert(all =~= q + extra + (cnt + strs + after));
    }
    let q2 = q + extra;
    assert(crate::types::decompile::read_spec::u16_field(all, q2.len() as int) == Some((h.string_count, (q2.len() + 2) as int))) by {
        lemma_field_after_write(q2, h.strings.len(), 2, strs + after);
        assert(all =~= q2 + cnt + (strs + after));
    }
    law_be_roundtrip(h.strings.len(), 2);
    assert(spec_read_shared_strings(all, (q2.len() + 2) as int, h.string_count as nat) == Some((h.strings, all.len() - after.len()))) by {
        lemma_shared_strings_write_read(h.strings, h.strings.len(), q2 + cnt, after);
        assert(all =~= (q2 + cnt) + strs + after);
        assert(h.strings.take(h.strings.len() as int) =~= h.strings);
    }
    lemma_header_from_fields(all, h, q2.len() as int, all.len() - after.len());
}

/// A buffer written under the type named `buffer` reads back as itself,
/// whatever comes before and after.
pub proof fn law_buffer_write_read(x: SpecBuffer, d: SpecImportantData, before: Seq<u8>, after: Seq<u8>)
    requires
        spec_type_by_name(d.type_table, name_buffer()) == Some(x.struct_type),
        x.length == x.data.len(),
    ensures
        spec_write_buffer(x, d, name_buffer()) matches Some(bytes) && spec_read_buffer(
            before + bytes + after,
            before.len() as int,
            d,
        ) == Some((x, (before.len() + bytes.len()) as int)),
{
    lemma_pow256_4();
    law_type_name_of_type_by_name(d.type_table, name_buffer());
    let t = be16(x.struct_type as int);
    let l = be32((x.data.len() as u32) as int);
    law_be_roundtrip(x.struct_type as nat, 2);
    assert((x.data.len() as u32) as int == x.data.len());
    law_be_roundtrip(x.data.len(), 4);
    assert(t.len() == 2 && l.len() == 4);
    let bytes = t + l + x.data;
    let all = before + bytes + after;
    assert(all =~= before + t + (l + x.data + after));
    lemma_field_after_write(before, x.struct_type as nat, 2, l + x.data + after);
    assert(all =~= (before + t) + l + (x.data + after));
    lemma_field_after_write(before + t, x.data.len(), 4, x.data + after);
    assert(all.subrange((before.len() + 6) as int, (before.len() + 6 + x.data.len()) as int) =~= x.data);
}


/// Decompiling the file at `<stem>.esd` writes the text to `<stem>.esd.py`.
pub proof fn law_decompiled_path(stem: Seq<char>)
    ensures
        decompiled_path(stem + ".esd"@) == Some(stem + ".esd.py"@),
{
    reveal_strlit(".esd");
    reveal_strlit("esd.py");
    reveal_strlit(".esd.py");
    let p = stem + ".esd"@;
    assert(p.take(p.len() - 3) + "esd.py"@ =~= stem + ".esd.py"@);
}

/// Replacing in `x + y`, where no occurrence starts inside `x`, keeps `x`.
proof fn lemma_replace_after_prefix(x: Seq<char>, y: Seq<char>, p: Seq<char>, r: Seq<char>)
    requires
        p.len() > 0,
        forall|i: int| 0 <= i < x.len() ==> !occurs_at(x + y, p, i),
    ensures
        replace_all(x + y, p, r) == x + replace_all(y, p, r),
    decreases x.len(),
{
    if x.len() > 0 {
        let s = x + y;
        if s.len() >= p.len() {
            assert(s.take(p.len() as int) != p) by {
                assert(!occurs_at(s, p, 0));
                assert(s.subrange(0, p.len() as int) =~= s.take(p.len() as int));
            }
        }
        assert(s.skip(1) =~= x.skip(1) + y);
        assert forall|i: int| 0 <= i < x.skip(1).len() implies !occurs_at(x.skip(1) + y, p, i) by {
            assert(!occurs_at(s, p, i + 1));
            if occurs_at(x.skip(1) + y, p, i) {
                assert((x.skip(1) + y).subrange(i, i + p.len()) =~= s.subrange(i + 1, i + 1 + p.len()));
            }
        }
        lemma_replace_after_prefix(x.skip(1), y, p, r);
        assert(seq![s[0]] + (x.skip(1) + replace_all(y, p, r)) =~= x + replace_all(y, p, r));
    } else {
        assert(x + y =~= y);
    }
}

/// Compiling the text at `<stem>.esd.py` writes the file to `<stem>.esd`,
/// when the first `.esd.py` in the path is the last one: decompiling and
/// then compiling a file writes back to the file's own path.
pub proof fn law_compiled_path(stem: Seq<char>)
    requires
        forall|i: int| 0 <= i < stem.len() ==> !occurs_at(stem + ".esd.py"@, ".esd.py"@, i),
    ensures
        compiled_path(stem + ".esd.py"@) == stem + ".esd"@,
        decompiled_path(stem + ".esd"@) matches Some(t) && compiled_path(t) == stem + ".esd"@,
{
    reveal_strlit(".esd.py");
    reveal_strlit(".esd");
    lemma_replace_after_prefix(stem, ".esd.py"@, ".esd.py"@, ".esd"@);
    let p = ".esd.py"@;
    assert(p.take(p.len() as int) =~= p);
    assert(p.skip(p.len() as int) =~= Seq::<char>::empty());
    assert(replace_all(p, p, ".esd"@) == ".esd"@ + replace_all(Seq::<char>::empty(), p, ".esd"@));
    assert(stem + ".esd"@ + Seq::<char>::empty() =~= stem + ".esd"@);
    law_decompiled_path(stem);
}


/// The UTF-16 units of one character.
pub open spec fn char_units(c: char) -> Seq<u16> {
    let v = c as u32;
    if v < 0x10000 {
        seq![v as u16]
    } else {
        seq![(0xD800 + (v - 0x10000) / 0x400) as u16, (0xDC00 + (v - 0x10000) % 0x400) as u16]
    }
}

/// The UTF-16 units of a text.
pub open spec fn text_units(s: Seq<char>) -> Seq<u16>
    decreases s.len(),
{
    if s.len() == 0 {
        seq![]
    } else {
        char_units(s[0]) + text_units(s.drop_first())
    }
}

proof fn lemma_text_units_push(s: Seq<char>, c: char)
    ensures
        text_units(s.push(c)) == text_units(s) + char_units(c),
    decreases s.len(),
{
    if s.len() == 0 {
        assert(s.push(c).drop_first() =~= Seq::<char>::empty());
        assert(text_units(Seq::<char>::empty()) == Seq::<u16>::empty());
        assert(s.push(c)[0] == c);
        assert(text_units(s) =~= Seq::<u16>::empty());
        assert(char_units(c) + Seq::<u16>::empty() =~= char_units(c));
        assert(Seq::<u16>::empty() + char_units(c) =~= char_units(c));
    } else {
        assert(s.push(c).drop_first() =~= s.drop_first().push(c));
        lemma_text_units_push(s.drop_first(), c);
        assert(s.push(c)[0] == s[0]);
        assert(char_units(s[0]) + (text_units(s.drop_first()) + char_units(c)) =~= (char_units(s[0])
            + text_units(s.drop_first())) + char_units(c));
    }
}

/// The units of the little-endian bytes of one character are its units.
proof fn lemma_char_bytes_units(c: char)
    ensures
        char_utf16le(c).len() == 2 * char_units(c).len(),
        le_u16_units(char_utf16le(c)) == char_units(c),
{
    let v = c as u32;
    if v < 0x10000 {
        assert(((v % 256) as u8) + 256 * ((v / 256) as u8) == v) by (nonlinear_arith)
            requires
                v < 0x10000,
        ;
        assert(le_u16_units(char_utf16le(c)) =~= char_units(c));
    } else {
        let hi = 0xD800 + (v - 0x10000) / 0x400;
        let lo = 0xDC00 + (v - 0x10000) % 0x400;
        assert(hi < 0x10000 && lo < 0x10000) by (nonlinear_arith)
            requires
                0x10000 <= v <= 0x10FFFF,
                hi == 0xD800 + (v - 0x10000) / 0x400,
                lo == 0xDC00 + (v - 0x10000) % 0x400,
        ;
        assert(((hi % 256) as u8) + 256 * ((hi / 256) as u8) == hi) by (nonlinear_arith)
            requires
                0 <= hi < 0x10000,
        ;
        assert(((lo % 256) as u8) + 256 * ((lo / 256) as u8) == lo) by (nonlinear_arith)
            requires
                0 <= lo < 0x10000,
        ;
        assert(le_u16_units(char_utf16le(c)) =~= char_units(c));
    }
}

/// Units of concatenated byte runs, the first of even length.
proof fn lemma_units_concat(x: Seq<u8>, y: Seq<u8>)
    requires
        x.len() % 2 == 0,
    ensures
        le_u16_units(x + y) == le_u16_units(x) + le_u16_units(y),
{
    let z = x + y;
    assert((x.len() + y.len()) / 2 == x.len() / 2 + y.len() / 2);
    assert forall|i: int| 0 <= i < le_u16_units(z).len() implies le_u16_units(z)[i] == (le_u16_units(x)
        + le_u16_units(y))[i] by {
        if i < x.len() / 2 {
            assert(z[2 * i] == x[2 * i] && z[2 * i + 1] == x[2 * i + 1]);
        } else {
            let k = i - x.len() / 2;
            assert(2 * i == x.len() + 2 * k);
            assert(z[2 * i] == y[2 * k] && z[2 * i + 1] == y[2 * k + 1]);
        }
    }
    assert(le_u16_units(z) =~= le_u16_units(x) + le_u16_units(y));
}

/// The units of the little-endian bytes of a text are its units.
proof fn lemma_text_bytes_units(s: Seq<char>)
    ensures
        utf16le(s).len() % 2 == 0,
        le_u16_units(utf16le(s)) == text_units(s),
    decreases s.len(),
{
    if s.len() == 0 {
        assert(le_u16_units(Seq::<u8>::empty()) =~= Seq::<u16>::empty());
    } else {
        lemma_text_bytes_units(s.drop_last());
        lemma_char_bytes_units(s.last());
        lemma_units_concat(utf16le(s.drop_last()), char_utf16le(s.last()));
        lemma_text_units_push(s.drop_last(), s.last());
        assert(s.drop_last().push(s.last()) =~= s);
    }
}

/// Decoding the units of a character followed by more units gives the
/// character followed by what the rest decodes to.
proof fn lemma_decode_char(c: char, rest: Seq<u16>)
    ensures
        utf16_decode(char_units(c) + rest) == match utf16_decode(rest) {
            Some(r) => Some(seq![c] + r),
            None => None::<Seq<char>>,
        },
{
    let v = c as u32;
    let u = char_units(c) + rest;
    if v < 0x10000 {
        assert(u.drop_first() =~= rest);
        assert((v as u16) as char == c);
    } else {
        let hi = 0xD800 + (v - 0x10000) / 0x400;
        let lo = 0xDC00 + (v - 0x10000) % 0x400;
        assert(0xD800 <= hi <= 0xDBFF && 0xDC00 <= lo <= 0xDFFF && 0x10000 + (hi - 0xD800) * 0x400 + (
        lo - 0xDC00) == v) by (nonlinear_arith)
            requires
                0x10000 <= v <= 0x10FFFF,
                hi == 0xD800 + (v - 0x10000) / 0x400,
                lo == 0xDC00 + (v - 0x10000) % 0x400,
        ;
        assert(u.subrange(2, u.len() as int) =~= rest);
        assert(u[0] == hi as u16 && u[1] == lo as u16);
        assert((0x10000 + (u[0] - 0xD800) * 0x400 + (u[1] - 0xDC00)) as char == c);
    }
}

/// Decoding the units of a text followed by more units gives the text
/// followed by what the rest decodes to.
proof fn lemma_decode_text(s: Seq<char>, rest: Seq<u16>)
    ensures
        utf16_decode(text_units(s) + rest) == match utf16_decode(rest) {
            Some(r) => Some(s + r),
            None => None::<Seq<char>>,
        },
    decreases s.len(),
{
    if s.len() == 0 {
        assert(text_units(s) + rest =~= rest);
        assert(forall|r: Seq<char>| s + r =~= r);
    } else {
        lemma_decode_text(s.drop_first(), rest);
        assert(text_units(s) + rest =~= char_units(s[0]) + (text_units(s.drop_first()) + rest));
        lemma_decode_char(s[0], text_units(s.drop_first()) + rest);
        match utf16_decode(rest) {
            Some(r) => {
                assert(seq![s[0]] + (s.drop_first() + r) =~= s + r);
            },
            None => {},
        }
    }
}

/// A quoted string event argument (without quotes or commas inside) that
/// compiling writes as UTF-16 with a terminating zero unit, decompiling
/// prints back as the same quoted text.
pub proof fn law_string_arg_roundtrip(s: Seq<char>)
    requires
        forall|i: int| 0 <= i < s.len() ==> s[i] != '"',
    ensures
        arg_buffer(seq!['"'] + s + seq!['"']) matches Some(Some(b)) && event_arg_text(b) == Some(
            seq!['"'] + s + seq!['"'],
        ),
{
    reveal_strlit(" ");
    reveal_strlit("\"");
    assert(" "@ =~= seq![' ']);
    assert("\""@ =~= seq!['"']);
    let arg = seq!['"'] + s + seq!['"'];
    assert(replace_all(arg, " "@, seq![]).len() > 0) by {
        assert(arg.take(1) =~= seq!['"']);
        assert(arg.take(1) != " "@);
    }
    assert(starts_with(arg, "\""@)) by {
        assert(arg.subrange(0, 1) =~= seq!['"']);
    }
    assert(replace_all(arg, "\""@, seq![]) == s) by {
        assert(arg.take(1) =~= seq!['"']);
        assert(arg.skip(1) =~= s + seq!['"']);
        assert forall|i: int| 0 <= i < s.len() implies !occurs_at(s + seq!['"'], seq!['"'], i) by {
            if occurs_at(s + seq!['"'], seq!['"'], i) {
                assert((s + seq!['"']).subrange(i, i + 1)[0] == s[i]);
            }
        }
        lemma_replace_after_prefix(s, seq!['"'], seq!['"'], seq![]);
        assert(seq!['"'].take(1) =~= seq!['"']);
        assert(seq!['"'].skip(1) =~= Seq::<char>::empty());
        assert(replace_all(Seq::<char>::empty(), seq!['"'], seq![]) == Seq::<char>::empty());
        assert(replace_all(seq!['"'], seq!['"'], seq![]) =~= Seq::<char>::empty());
        assert(s + Seq::<char>::empty() =~= s);
    }
    let data = seq![0xA5u8] + utf16le(s) + seq![0u8, 0u8, 0xA1u8];
    assert(arg_buffer(arg) == Some(Some(data)));
    let a = data.drop_last();
    assert(a.drop_first() =~= utf16le(s) + seq![0u8, 0u8]);
    lemma_text_bytes_units(s);
    lemma_units_concat(utf16le(s), seq![0u8, 0u8]);
    assert(le_u16_units(seq![0u8, 0u8]) =~= seq![0u16]);
    lemma_decode_text(s, seq![0u16]);
    assert(seq![0u16].drop_first() =~= Seq::<u16>::empty());
    assert(utf16_decode(Seq::<u16>::empty()) == Some(Seq::<char>::empty()));
    assert(seq![0u16 as char] + Seq::<char>::empty() =~= seq![0u16 as char]);
    assert(utf16_decode(seq![0u16]) == Some(seq![0u16 as char]));
    let t = s + seq![0u16 as char];
    assert(t.drop_last() =~= s);
    assert(a[0] == 0xA5);
}


/// How often `c` occurs in `s`.
pub open spec fn char_count(s: Seq<char>, c: char) -> nat
    decreases s.len(),
{
    if s.len() == 0 {
        0
    } else {
        char_count(s.drop_last(), c) + if s.last() == c { 1nat } else { 0nat }
    }
}

/// Splitting gives one piece more than there are separators.
proof fn lemma_split_len(s: Seq<char>, sep: char)
    ensures
        split_on(s, sep).len() == char_count(s, sep) + 1,
    decreases s.len(),
{
    if s.len() > 0 {
        lemma_split_len(s.drop_last(), sep);
    }
}

/// Occurrences in `x + y` are those in `x` and those in `y`.
proof fn lemma_count_concat(x: Seq<char>, y: Seq<char>, c: char)
    ensures
        char_count(x + y, c) == char_count(x, c) + char_count(y, c),
    decreases y.len(),
{
    if y.len() == 0 {
        assert(x + y =~= x);
    } else {
        assert((x + y).drop_last() =~= x + y.drop_last());
        lemma_count_concat(x, y.drop_last(), c);
    }
}

/// A text without `c` holds it no time.
proof fn lemma_count_absent(s: Seq<char>, c: char)
    requires
        forall|i: int| 0 <= i < s.len() ==> s[i] != c,
    ensures
        char_count(s, c) == 0,
    decreases s.len(),
{
    if s.len() > 0 {
        lemma_count_absent(s.drop_last(), c);
    }
}

/// A text without the separator is one piece.
pub(crate) proof fn lemma_split_absent(s: Seq<char>, sep: char)
    requires
        forall|i: int| 0 <= i < s.len() ==> s[i] != sep,
    ensures
        split_on(s, sep) == seq![s],
    decreases s.len(),
{
    if s.len() == 0 {
        assert(s =~= Seq::<char>::empty());
        assert(split_on(s, sep) =~= seq![s]);
    } else {
        lemma_split_absent(s.drop_last(), sep);
        assert(s[s.len() - 1] != sep);
        assert(s.drop_last().push(s.last()) =~= s);
        assert(split_on(s, sep) =~= seq![s]);
    }
}

/// Splitting `x`, the separator and `y` gives the pieces of `x` and then
/// those of `y`.
pub(crate) proof fn lemma_split_at_sep(x: Seq<char>, sep: char, y: Seq<char>)
    ensures
        split_on(x + seq![sep] + y, sep) == split_on(x, sep) + split_on(y, sep),
    decreases y.len(),
{
    let s = x + seq![sep] + y;
    if y.len() == 0 {
        assert(s.drop_last() =~= x);
        assert(split_on(x, sep).push(Seq::<char>::empty()) =~= split_on(x, sep) + split_on(y, sep));
    } else {
        assert(s.drop_last() =~= x + seq![sep] + y.drop_last());
        lemma_split_at_sep(x, sep, y.drop_last());
        lemma_split_nonempty(y.drop_last(), sep);
        let a = split_on(x, sep);
        let b = split_on(y.drop_last(), sep);
        if y.last() == sep {
            assert((a + b).push(Seq::<char>::empty()) =~= a + b.push(Seq::<char>::empty()));
        } else {
            let p = a + b;
            assert(p.update(p.len() - 1, p.last().push(y.last())) =~= a + b.update(
                b.len() - 1,
                b.last().push(y.last()),
            ));
        }
    }
}


/// The texts with `sep` between each two.
pub open spec fn join_texts(parts: Seq<Seq<char>>, sep: Seq<char>) -> Seq<char>
    decreases parts.len(),
{
    if parts.len() == 0 {
        seq![]
    } else if parts.len() == 1 {
        parts[0]
    } else {
        join_texts(parts.drop_last(), sep) + sep + parts.last()
    }
}

/// An event argument that decompiling prints as it was written: the
/// decimal form of an `i32`, or a text in quotes
/// that holds no quote, comma or parenthesis.
pub open spec fn plain_arg(a: Seq<char>) -> bool {
    ||| (parse_in(a, i32::MIN as int, i32::MAX as int) matches Some(v) && a == dec_int(v))
    ||| (a.len() >= 2 && a[0] == '"' && a[a.len() - 1] == '"' && forall|i: int|
        1 <= i < a.len() - 1 ==> a[i] != '"' && a[i] != ',' && a[i] != '(' && a[i] != ')')
}

/// A plain argument compiles into a buffer that decompiles back to it, and
/// holds no comma or parenthesis.
proof fn lemma_plain_arg(a: Seq<char>)
    requires
        plain_arg(a),
    ensures
        a.len() > 0,
        forall|i: int| 0 <= i < a.len() ==> a[i] != ',' && a[i] != '(' && a[i] != ')',
        arg_buffer(a) matches Some(Some(b)) && event_arg_text(b) == Some(a),
{
    if parse_in(a, i32::MIN as int, i32::MAX as int) is Some && a == dec_int(parse_in(a, i32::MIN as int, i32::MAX as int)->0) {
        let v = parse_in(a, i32::MIN as int, i32::MAX as int)->0;
        lemma_dec_int_plain(v);
        law_int_arg_roundtrip(v);
    } else {
        let t = a.subrange(1, a.len() - 1);
        assert(a =~= seq!['"'] + t + seq!['"']);
        law_string_arg_roundtrip(t);
    }
}

/// The buffers of the first `n` plain arguments decompile back to them.
proof fn lemma_plain_arg_buffers(args: Seq<Seq<char>>, n: nat)
    requires
        n <= args.len(),
        forall|i: int| 0 <= i < args.len() ==> plain_arg(#[trigger] args[i]),
    ensures
        arg_buffers(args, n) matches Some(bs) && bs.len() == n && forall|i: int|
            0 <= i < n ==> event_arg_text(#[trigger] bs[i].data) == Some(args[i]),
    decreases n,
{
    if n > 0 {
        lemma_plain_arg_buffers(args, (n - 1) as nat);
        lemma_plain_arg(args[n - 1]);
    }
}

/// Joining texts without `c` by a separator without `c` gives a text
/// without `c`.
proof fn lemma_join_free(parts: Seq<Seq<char>>, sep: Seq<char>, c: char)
    requires
        forall|i: int, j: int| 0 <= i < parts.len() && 0 <= j < parts[i].len() ==> parts[i][j] != c,
        forall|j: int| 0 <= j < sep.len() ==> sep[j] != c,
    ensures
        forall|j: int| 0 <= j < join_texts(parts, sep).len() ==> join_texts(parts, sep)[j] != c,
    decreases parts.len(),
{
    if parts.len() >= 2 {
        lemma_join_free(parts.drop_last(), sep, c);
        let a = join_texts(parts.drop_last(), sep);
        let l = parts.last();
        assert forall|j: int| 0 <= j < (a + sep + l).len() implies (a + sep + l)[j] != c by {
            if j < a.len() {
            } else if j < a.len() + sep.len() {
                assert((a + sep + l)[j] == sep[j - a.len()]);
            } else {
                assert((a + sep + l)[j] == l[j - a.len() - sep.len()]);
                assert(l == parts[parts.len() - 1]);
            }
        }
    }
}

/// Splitting texts joined by a separator that none of them holds gives the
/// texts back.
proof fn lemma_split_join(parts: Seq<Seq<char>>, sep: char)
    requires
        parts.len() >= 1,
        forall|i: int, j: int| 0 <= i < parts.len() && 0 <= j < parts[i].len() ==> parts[i][j] != sep,
    ensures
        split_on(join_texts(parts, seq![sep]), sep) == parts,
    decreases parts.len(),
{
    if parts.len() == 1 {
        lemma_split_absent(parts[0], sep);
        assert(seq![parts[0]] =~= parts);
    } else {
        lemma_split_join(parts.drop_last(), sep);
        let l = parts.last();
        assert(l == parts[parts.len() - 1]);
        lemma_split_absent(l, sep);
        lemma_split_at_sep(join_texts(parts.drop_last(), seq![sep]), sep, l);
        assert(parts.drop_last() + seq![l] =~= parts);
    }
}


/// The first `n` texts, each followed by `sep`.
spec fn with_seps(parts: Seq<Seq<char>>, n: nat, sep: Seq<char>) -> Seq<char>
    decreases n,
{
    if n == 0 {
        seq![]
    } else {
        with_seps(parts, (n - 1) as nat, sep) + parts[n - 1] + sep
    }
}

/// The first `m + 1` texts joined are the first `m`, each followed by the
/// separator, and then text `m`.
proof fn lemma_join_take(parts: Seq<Seq<char>>, m: nat, sep: Seq<char>)
    requires
        m < parts.len(),
    ensures
        join_texts(parts.take(m + 1int), sep) == with_seps(parts, m, sep) + parts[m as int],
    decreases m,
{
    if m == 0 {
        assert(with_seps(parts, 0, sep) + parts[0] =~= parts[0]);
    } else {
        lemma_join_take(parts, (m - 1) as nat, sep);
        assert(parts.take(m + 1int).drop_last() =~= parts.take(m as int));
        assert(parts.take(m + 1int).last() == parts[m as int]);
    }
}

/// Decompiling the first `n` of `k` arguments prints each followed by `, `
/// while `n` is below `k`.
proof fn lemma_args_text(datas: Seq<Seq<u8>>, args: Seq<Seq<char>>, n: nat)
    requires
        datas.len() == args.len(),
        n < args.len(),
        args.len() + 1 <= u32::MAX,
        forall|i: int| 0 <= i < args.len() ==> event_arg_text(#[trigger] datas[i]) == Some(args[i]),
    ensures
        event_args_text(datas, n, (args.len() + 1) as u32) == Some(with_seps(args, n, seq![',', ' '])),
    decreases n,
{
    if n > 0 {
        lemma_args_text(datas, args, (n - 1) as nat);
        assert(event_arg_text(datas[n - 1]) == Some(args[n - 1]));
    }
}

/// Decompiling all `k` arguments of an event with the argument count
/// `k + 1` prints them joined by `, `.
proof fn lemma_all_args_text(datas: Seq<Seq<u8>>, args: Seq<Seq<char>>)
    requires
        datas.len() == args.len(),
        args.len() >= 1,
        args.len() + 1 <= u32::MAX,
        forall|i: int| 0 <= i < args.len() ==> event_arg_text(#[trigger] datas[i]) == Some(args[i]),
    ensures
        event_args_text(datas, datas.len(), (args.len() + 1) as u32) == Some(
            join_texts(args, seq![',', ' ']),
        ),
{
    let k = args.len();
    lemma_args_text(datas, args, (k - 1) as nat);
    assert(event_arg_text(datas[k - 1]) == Some(args[k - 1]));
    lemma_join_take(args, (k - 1) as nat, seq![',', ' ']);
    assert(args.take(k as int) =~= args);
}

/// An id found for a name lies in the range and belongs to a definition
/// with that name.
pub(crate) proof fn lemma_last_id_found(d: Seq<(Seq<char>, Seq<char>)>, name: Seq<char>, lo: int, hi: int)
    requires
        last_id_of(d, name, lo, hi) is Some,
        last_id_of(d, name, lo, hi)->0 is Some,
    ensures
        lo <= last_id_of(d, name, lo, hi)->0->0 <= hi,
        defs_has_name(d, name),
    decreases d.len(),
{
    if d.len() > 0 {
        if d.last().1 == name {
            assert(d[d.len() - 1].1 == name);
        } else {
            lemma_last_id_found(d.drop_last(), name, lo, hi);
            let i = choose|i: int| 0 <= i < d.drop_last().len() && (#[trigger] d.drop_last()[i]).1 == name;
            assert(d[i].1 == name);
        }
    }
}


/// An event call that compiling accepts, decompiling prints back as written,
/// with a space after each comma and on an indented line: when its name
/// holds no parenthesis or comma, each argument is plain, and the event
/// definitions give the name back under the id that compiling finds for it.
pub proof fn law_event_line_roundtrip(name: Seq<char>, args: Seq<Seq<char>>, d: SpecImportantData)
    requires
        forall|i: int| 0 <= i < name.len() ==> name[i] != '(' && name[i] != ')' && name[i] != ',',
        forall|i: int| 0 <= i < args.len() ==> plain_arg(#[trigger] args[i]),
        args.len() + 2 < u32::MAX,
        last_id_of(d.event_defs, name, 0, u32::MAX as int) matches Some(Some(id)) && defs_lookup(
            d.event_defs,
            dec_nat(id as nat),
        ) == Some(name),
    ensures
        event_from_text(name + seq!['('] + join_texts(args, seq![',']) + seq![')'], d.event_defs) matches Some(e)
            && event_line(e, d) == Some("        "@ + name + seq!['('] + join_texts(args, seq![',', ' '])
            + seq![')']),
{
    reveal_strlit("(");
    reveal_strlit(")");
    reveal_strlit("()");
    assert("("@ =~= seq!['(']);
    assert(")"@ =~= seq![')']);
    let defs = d.event_defs;
    let j = join_texts(args, seq![',']);
    let s = name + seq!['('] + j + seq![')'];
    // What the arguments hold.
    assert forall|i: int| 0 <= i < args.len() implies (#[trigger] args[i]).len() > 0 && forall|k: int|
        0 <= k < args[i].len() ==> args[i][k] != ',' && args[i][k] != '(' && args[i][k] != ')' by {
        lemma_plain_arg(args[i]);
    }
    lemma_join_free(args, seq![','], '(');
    lemma_join_free(args, seq![','], ')');
    // The name and the rest.
    let rest = j + seq![')'];
    assert(s =~= name + seq!['('] + rest);
    lemma_split_at_sep(name, '(', rest);
    lemma_split_absent(name, '(');
    assert forall|i: int| 0 <= i < rest.len() implies rest[i] != '(' by {
        if i < j.len() {
            assert(rest[i] == j[i]);
        }
    }
    lemma_split_absent(rest, '(');
    let parts = split_on(s, '(');
    assert(parts =~= seq![name, rest]);
    assert(parts[0] == name);
    // The id.
    lemma_last_id_found(defs, name, 0, u32::MAX as int);
    let id = last_id_of(defs, name, 0, u32::MAX as int)->0->0;
    // The commas.
    lemma_split_len(s, ',');
    lemma_count_concat(name + seq!['('] + j, seq![')'], ',');
    lemma_count_concat(name + seq!['('], j, ',');
    lemma_count_concat(name, seq!['('], ',');
    lemma_count_absent(name, ',');
    lemma_count_absent(seq!['('], ',');
    lemma_count_absent(seq![')'], ',');
    lemma_split_len(j, ',');
    assert(!contains_text(name, "()"@)) by {
        if contains_text(name, "()"@) {
            let i = choose|i: int| occurs_at(name, "()"@, i);
            assert(name.subrange(i, i + 2)[0] == name[i]);
        }
    }
    // The arguments.
    assert forall|i: int| 0 <= i < j.len() implies j[i] != '(' && j[i] != ')' by {}
    lemma_replace_absent(rest, '(');
    assert forall|i: int| 0 <= i < j.len() implies !occurs_at(j + seq![')'], seq![')'], i) by {
        if occurs_at(j + seq![')'], seq![')'], i) {
            assert((j + seq![')']).subrange(i, i + 1)[0] == j[i]);
        }
    }
    lemma_replace_after_prefix(j, seq![')'], seq![')'], seq![]);
    assert(seq![')'].take(1) =~= seq![')']);
    assert(seq![')'].skip(1) =~= Seq::<char>::empty());
    assert(replace_all(Seq::<char>::empty(), seq![')'], seq![]) == Seq::<char>::empty());
    assert(replace_all(seq![')'], seq![')'], seq![]) =~= Seq::<char>::empty());
    assert(j + Seq::<char>::empty() =~= j);
    let inner = replace_all(replace_all(parts[1], "("@, seq![]), ")"@, seq![]);
    assert(inner == j);
    if args.len() == 0 {
        assert(j =~= Seq::<char>::empty());
        assert(split_on(j, ',') =~= seq![Seq::<char>::empty()]);
        reveal_strlit(" ");
        assert(" "@ =~= seq![' ']);
        assert(replace_all(Seq::<char>::empty(), " "@, seq![]) == Seq::<char>::empty());
        assert(arg_buffer(Seq::<char>::empty()) == Some(None::<Seq<u8>>));
        assert(seq![Seq::<char>::empty()][0] == Seq::<char>::empty());
        assert(arg_buffers(seq![Seq::<char>::empty()], 0) == Some(Seq::<crate::types::structs::SpecBuffer>::empty()));
        assert(arg_buffers(seq![Seq::<char>::empty()], 1) == Some(Seq::<crate::types::structs::SpecBuffer>::empty()));
        assert(char_count(j, ',') == 0);
        let e = event_from_text(s, defs)->0;
        assert(e.arg_amount == 2);
        assert(e.arg_buffers == Some(Seq::<crate::types::structs::SpecBuffer>::empty()));
        assert(join_texts(args, seq![',', ' ']) =~= Seq::<char>::empty());
        assert(event_args_text(Seq::<Seq<u8>>::empty(), 0, 2) == Some(Seq::<char>::empty()));
        assert(Seq::<crate::types::structs::SpecBuffer>::empty().map_values(
            |b: crate::types::structs::SpecBuffer| b.data,
        ) =~= Seq::<Seq<u8>>::empty());
        assert(name + seq!['('] + Seq::<char>::empty() + seq![')'] =~= name + seq!['('] + join_texts(
            args,
            seq![',', ' '],
        ) + seq![')']);
    } else {
        lemma_split_join(args, ',');
        lemma_plain_arg_buffers(args, args.len());
        let bs = arg_buffers(args, args.len())->0;
        let e = event_from_text(s, defs)->0;
        assert(e.arg_amount == args.len() + 1);
        let datas = bs.map_values(|b: crate::types::structs::SpecBuffer| b.data);
        assert forall|i: int| 0 <= i < args.len() implies event_arg_text(#[trigger] datas[i]) == Some(args[i]) by {
            assert(datas[i] == bs[i].data);
        }
        lemma_all_args_text(datas, args);
    }
}


/// A buffer that writing and reading keep: of the type named `buffer`, with
/// its length that of its bytes.
pub open spec fn buffer_kept(x: SpecBuffer, table: Seq<Seq<char>>) -> bool {
    spec_type_by_name(table, name_buffer()) == Some(x.struct_type) && x.length == x.data.len()
}

/// An evaluator that writing and reading keep: of the type named
/// `EzStateEvaluator`, version `1`, with a buffer that they keep.
pub open spec fn evaluator_kept(x: SpecEvaluator, table: Seq<Seq<char>>) -> bool {
    spec_type_by_name(table, name_evaluator()) == Some(x.struct_type) && x.version == 1
        && buffer_kept(x.buffer, table)
}

/// Buffers written one after the other read back as themselves.
#[verifier::rlimit(40)]
proof fn lemma_buffers_write_read(v: Seq<SpecBuffer>, d: SpecImportantData, before: Seq<u8>, after: Seq<u8>)
    requires
        forall|i: int| 0 <= i < v.len() ==> buffer_kept(#[trigger] v[i], d.type_table),
    ensures
        spec_write_buffers(v, d) matches Some(bytes) && spec_read_buffers(
            before + bytes + after,
            before.len() as int,
            v.len(),
            d,
        ) == Some((v, (before.len() + bytes.len()) as int)),
    decreases v.len(),
{
    if v.len() == 0 {
        assert(spec_read_buffers(before + Seq::<u8>::empty() + after, before.len() as int, 0, d) == Some(
            (Seq::<SpecBuffer>::empty(), before.len() as int),
        ));
        assert(v =~= Seq::<SpecBuffer>::empty());
    } else {
        let l = v.last();
        assert(buffer_kept(v[v.len() - 1], d.type_table));
        law_buffer_write_read(l, d, Seq::<u8>::empty(), Seq::<u8>::empty());
        let lb = spec_write_buffer(l, d, name_buffer())->0;
        lemma_buffers_write_read(v.drop_last(), d, before, lb + after);
        let a = spec_write_buffers(v.drop_last(), d)->0;
        assert(before + a + (lb + after) =~= before + (a + lb) + after);
        law_buffer_write_read(l, d, before + a, after);
        assert(before + a + lb + after =~= before + (a + lb) + after);
        assert(v.drop_last().push(l) =~= v);
    }
}

/// An evaluator that writing and reading keep reads back as itself,
/// whatever comes before and after.
pub proof fn law_evaluator_write_read(x: SpecEvaluator, d: SpecImportantData, before: Seq<u8>, after: Seq<u8>)
    requires
        evaluator_kept(x, d.type_table),
    ensures
        spec_write_evaluator(x, d) matches Some(bytes) && spec_read_evaluator(
            before + bytes + after,
            before.len() as int,
            d,
        ) == Some((x, (before.len() + bytes.len()) as int)),
{
    lemma_pow256_4();
    law_type_name_of_type_by_name(d.type_table, name_evaluator());
    law_buffer_write_read(x.buffer, d, Seq::<u8>::empty(), Seq::<u8>::empty());
    let bb = spec_write_buffer(x.buffer, d, name_buffer())->0;
    let t = be16(x.struct_type as int);
    let one = be32(1);
    law_be_roundtrip(x.struct_type as nat, 2);
    law_be_roundtrip(1, 4);
    let all = before + (t + one + bb) + after;
    assert(all =~= before + t + (one + bb + after));
    lemma_field_after_write(before, x.struct_type as nat, 2, one + bb + after);
    assert(all =~= (before + t) + one + (bb + after));
    lemma_field_after_write(before + t, 1, 4, bb + after);
    assert(all =~= (before + t + one) + bb + after);
    law_buffer_write_read(x.buffer, d, before + t + one, after);
}

/// Evaluators written one after the other read back as themselves.
#[verifier::rlimit(40)]
proof fn lemma_evaluators_write_read(v: Seq<SpecEvaluator>, d: SpecImportantData, before: Seq<u8>, after: Seq<u8>)
    requires
        forall|i: int| 0 <= i < v.len() ==> evaluator_kept(#[trigger] v[i], d.type_table),
    ensures
        spec_write_evaluators(v, d) matches Some(bytes) && spec_read_evaluators(
            before + bytes + after,
            before.len() as int,
            v.len(),
            d,
        ) == Some((v, (before.len() + bytes.len()) as int)),
    decreases v.len(),
{
    if v.len() == 0 {
        assert(v =~= Seq::<SpecEvaluator>::empty());
    } else {
        let l = v.last();
        assert(evaluator_kept(v[v.len() - 1], d.type_table));
        law_evaluator_write_read(l, d, Seq::<u8>::empty(), Seq::<u8>::empty());
        let lb = spec_write_evaluator(l, d)->0;
        lemma_evaluators_write_read(v.drop_last(), d, before, lb + after);
        let a = spec_write_evaluators(v.drop_last(), d)->0;
        assert(before + a + (lb + after) =~= before + (a + lb) + after);
        law_evaluator_write_read(l, d, before + a, after);
        assert(before + a + lb + after =~= before + (a + lb) + after);
        assert(v.drop_last().push(l) =~= v);
    }
}

/// A condition of the type named `EzStateCondition`, version `1`, with an
/// evaluator that writing and reading keep, reads back as itself, whatever
/// comes before and after.
pub proof fn law_condition_write_read(x: SpecCondition, d: SpecImportantData, before: Seq<u8>, after: Seq<u8>)
    requires
        spec_type_by_name(d.type_table, name_condition()) == Some(x.struct_type),
        x.version == 1,
        evaluator_kept(x.evaluator, d.type_table),
    ensures
        spec_write_condition(x, d) matches Some(bytes) && spec_read_condition(
            before + bytes + after,
            before.len() as int,
            d,
        ) == Some((x, (before.len() + bytes.len()) as int)),
{
    lemma_pow256_4();
    law_type_name_of_type_by_name(d.type_table, name_condition());
    law_evaluator_write_read(x.evaluator, d, Seq::<u8>::empty(), Seq::<u8>::empty());
    let eb = spec_write_evaluator(x.evaluator, d)->0;
    let t = be16(x.struct_type as int);
    let one = be32(1);
    law_be_roundtrip(x.struct_type as nat, 2);
    law_be_roundtrip(1, 4);
    let all = before + (t + one + eb) + after;
    assert(all =~= before + t + (one + eb + after));
    lemma_field_after_write(before, x.struct_type as nat, 2, one + eb + after);
    assert(all =~= (before + t) + one + (eb + after));
    lemma_field_after_write(before + t, 1, 4, eb + after);
    assert(all =~= (before + t + one) + eb + after);
    law_evaluator_write_read(x.evaluator, d, before + t + one, after);
}


/// The head of an event: its type, version, event id and argument count.
spec fn event_head(x: SpecEvent) -> Seq<u8> {
    be16(x.struct_type as int) + be32(x.version as int) + be32(x.event_id as int) + be32(x.arg_amount as int)
}

/// The head of an event reads back field by field.
proof fn lemma_event_head_read(x: SpecEvent, before: Seq<u8>, rest: Seq<u8>)
    ensures
        event_head(x).len() == 14,
        ({
            let all = before + event_head(x) + rest;
            let p = before.len() as int;
            &&& crate::types::decompile::read_spec::u16_field(all, p) == Some((x.struct_type, p + 2))
            &&& crate::types::decompile::read_spec::u32_field(all, p + 2) == Some((x.version, p + 6))
            &&& crate::types::decompile::read_spec::u32_field(all, p + 6) == Some((x.event_id, p + 10))
            &&& crate::types::decompile::read_spec::u32_field(all, p + 10) == Some((x.arg_amount, p + 14))
        }),
{
    lemma_pow256_4();
    let t = be16(x.struct_type as int);
    let ver = be32(x.version as int);
    let eid = be32(x.event_id as int);
    let amt = be32(x.arg_amount as int);
    law_be_roundtrip(x.struct_type as nat, 2);
    law_be_roundtrip(x.version as nat, 4);
    law_be_roundtrip(x.event_id as nat, 4);
    law_be_roundtrip(x.arg_amount as nat, 4);
    let all = before + event_head(x) + rest;
    assert(all =~= before + t + (ver + eid + amt + rest));
    lemma_field_after_write(before, x.struct_type as nat, 2, ver + eid + amt + rest);
    assert(all =~= (before + t) + ver + (eid + amt + rest));
    lemma_field_after_write(before + t, x.version as nat, 4, eid + amt + rest);
    assert(all =~= (before + t + ver) + eid + (amt + rest));
    lemma_field_after_write(before + t + ver, x.event_id as nat, 4, amt + rest);
    assert(all =~= (before + t + ver + eid) + amt + rest);
    lemma_field_after_write(before + t + ver + eid, x.arg_amount as nat, 4, rest);
}

/// The type id written for events is that of the first event type.
proof fn lemma_event_type_id(table: Seq<Seq<char>>, t: u16)
    requires
        1 <= t <= table.len(),
        is_event_name(table[t - 1]),
        forall|j: int| 0 <= j < t - 1 ==> !is_event_name(#[trigger] table[j]),
    ensures
        event_type_id(table) == Some(t),
        spec_type_name(table, t) == Some(table[t - 1]),
{
    reveal(event_type_id);
    let k = t - 1;
    assert(exists|i: int| 0 <= i < table.len() && is_event_name(table[i]));
    let c = choose|i: int|
        0 <= i < table.len() && is_event_name(table[i]) && forall|j: int| 0 <= j < i ==> !is_event_name(table[j]);
    assert(c == k) by {
        if c < k {
            assert(!is_event_name(table[c]));
        } else if c > k {
            assert(!is_event_name(table[k]));
        }
    }
}

/// An event of version `1` whose evaluators writing and reading keep reads
/// back as itself.
#[verifier::rlimit(40)]
proof fn lemma_event_v1_write_read(x: SpecEvent, d: SpecImportantData, before: Seq<u8>, after: Seq<u8>)
    requires
        event_type_id(d.type_table) == Some(x.struct_type),
        spec_type_name(d.type_table, x.struct_type) == Some(name_event()) || spec_type_name(
            d.type_table,
            x.struct_type,
        ) == Some(name_event6()),
        x.version == 1,
        x.arg_buffers is None,
        x.arg_evaluators matches Some(ev) && ev.len() + 1 == x.arg_amount && forall|i: int|
            0 <= i < ev.len() ==> evaluator_kept(#[trigger] ev[i], d.type_table),
    ensures
        spec_write_event(x, d) matches Some(bytes) && spec_read_event(
            before + bytes + after,
            before.len() as int,
            d,
        ) == Some((x, (before.len() + bytes.len()) as int)),
{
    let head = event_head(x);
    let ev = x.arg_evaluators->0;
    lemma_evaluators_write_read(ev, d, before + head, after);
    let a = spec_write_evaluators(ev, d)->0;
    if x.arg_amount <= 1 {
        assert(ev =~= Seq::<SpecEvaluator>::empty());
        assert(spec_write_event(x, d) == Some(head));
        lemma_event_head_read(x, before, after);
    } else {
        assert(spec_write_event(x, d) == Some(head + a));
        lemma_event_head_read(x, before, a + after);
        assert(before + (head + a) + after =~= before + head + (a + after));
        assert(before + (head + a) + after =~= (before + head) + a + after);
    }
}

/// An event of version `2` whose buffers writing and reading keep reads back
/// as itself.
#[verifier::rlimit(40)]
proof fn lemma_event_v2_write_read(x: SpecEvent, d: SpecImportantData, before: Seq<u8>, after: Seq<u8>)
    requires
        event_type_id(d.type_table) == Some(x.struct_type),
        spec_type_name(d.type_table, x.struct_type) == Some(name_event()) || spec_type_name(
            d.type_table,
            x.struct_type,
        ) == Some(name_event6()),
        x.version == 2,
        x.arg_evaluators is None,
        x.arg_buffers matches Some(bu) && bu.len() + 1 == x.arg_amount && forall|i: int|
            0 <= i < bu.len() ==> buffer_kept(#[trigger] bu[i], d.type_table),
    ensures
        spec_write_event(x, d) matches Some(bytes) && spec_read_event(
            before + bytes + after,
            before.len() as int,
            d,
        ) == Some((x, (before.len() + bytes.len()) as int)),
{
    let head = event_head(x);
    let bu = x.arg_buffers->0;
    lemma_buffers_write_read(bu, d, before + head, after);
    let a = spec_write_buffers(bu, d)->0;
    if x.arg_amount <= 1 {
        assert(bu =~= Seq::<SpecBuffer>::empty());
        assert(spec_write_event(x, d) == Some(head));
        lemma_event_head_read(x, before, after);
    } else {
        assert(spec_write_event(x, d) == Some(head + a));
        lemma_event_head_read(x, before, a + after);
        assert(before + (head + a) + after =~= before + head + (a + after));
        assert(before + (head + a) + after =~= (before + head) + a + after);
    }
}

/// An event of the first event type in the table, with its argument count
/// one more than its arguments, which are buffers that writing and reading
/// keep (version `2`) or such evaluators (version `1`), reads back as
/// itself, whatever comes before and after.
pub proof fn law_event_write_read(x: SpecEvent, d: SpecImportantData, before: Seq<u8>, after: Seq<u8>)
    requires
        1 <= x.struct_type <= d.type_table.len(),
        is_event_name(d.type_table[x.struct_type - 1]),
        forall|j: int| 0 <= j < x.struct_type - 1 ==> !is_event_name(#[trigger] d.type_table[j]),
        x.version == 1 || x.version == 2,
        x.version == 2 ==> x.arg_evaluators is None,
        x.version == 2 ==> (x.arg_buffers matches Some(bu) && bu.len() + 1 == x.arg_amount && forall|i: int|
            0 <= i < bu.len() ==> buffer_kept(#[trigger] bu[i], d.type_table)),
        x.version == 1 ==> x.arg_buffers is None,
        x.version == 1 ==> (x.arg_evaluators matches Some(ev) && ev.len() + 1 == x.arg_amount && forall|i: int|
            0 <= i < ev.len() ==> evaluator_kept(#[trigger] ev[i], d.type_table)),
    ensures
        spec_write_event(x, d) matches Some(bytes) && spec_read_event(
            before + bytes + after,
            before.len() as int,
            d,
        ) == Some((x, (before.len() + bytes.len()) as int)),
{
    lemma_event_type_id(d.type_table, x.struct_type);
    if x.version == 1 {
        lemma_event_v1_write_read(x, d, before, after);
    } else {
        lemma_event_v2_write_read(x, d, before, after);
    }
}


/// Replacing a pattern that occurs nowhere leaves a text unchanged.
pub(crate) proof fn lemma_replace_none(s: Seq<char>, p: Seq<char>, r: Seq<char>)
    requires
        p.len() > 0,
        forall|i: int| 0 <= i < s.len() ==> !occurs_at(s, p, i),
    ensures
        replace_all(s, p, r) == s,
{
    let e = Seq::<char>::empty();
    assert(s + e =~= s);
    lemma_replace_after_prefix(s, e, p, r);
    assert(replace_all(e, p, r) == e);
}

/// Replacing a pattern that occurs once, right after `a`, replaces that
/// occurrence.
proof fn lemma_replace_once(a: Seq<char>, p: Seq<char>, b: Seq<char>, r: Seq<char>)
    requires
        p.len() > 0,
        forall|i: int| 0 <= i < (a + p + b).len() && i != a.len() ==> !occurs_at(a + p + b, p, i),
    ensures
        replace_all(a + p + b, p, r) == a + r + b,
{
    let s = a + p + b;
    assert(s =~= a + (p + b));
    lemma_replace_after_prefix(a, p + b, p, r);
    assert((p + b).take(p.len() as int) =~= p);
    assert((p + b).skip(p.len() as int) =~= b);
    assert forall|j: int| 0 <= j < b.len() implies !occurs_at(b, p, j) by {
        if occurs_at(b, p, j) {
            let i = a.len() + p.len() + j;
            assert(s.subrange(i, i + p.len()) =~= b.subrange(j, j + p.len()));
            assert(occurs_at(s, p, i));
        }
    }
    lemma_replace_none(b, p, r);
    assert(a + (r + b) =~= a + r + b);
}

/// An occurrence matches the pattern character by character.
proof fn lemma_occurs_char(s: Seq<char>, p: Seq<char>, i: int, k: int)
    requires
        occurs_at(s, p, i),
        0 <= k < p.len(),
    ensures
        s[i + k] == p[k],
{
    assert(s.subrange(i, i + p.len())[k] == s[i + k]);
}

/// A pattern with a character that a text lacks does not occur in it.
proof fn lemma_missing_char(s: Seq<char>, p: Seq<char>, k: int)
    requires
        0 <= k < p.len(),
        forall|j: int| 0 <= j < s.len() ==> s[j] != p[k],
    ensures
        forall|i: int| !occurs_at(s, p, i),
{
    assert forall|i: int| !occurs_at(s, p, i) by {
        if occurs_at(s, p, i) {
            lemma_occurs_char(s, p, i, k);
        }
    }
}

/// Replacing a character that occurs once, right after `a`.
proof fn lemma_replace_char_once(a: Seq<char>, c: char, b: Seq<char>, r: Seq<char>)
    requires
        forall|j: int| 0 <= j < a.len() ==> a[j] != c,
        forall|j: int| 0 <= j < b.len() ==> b[j] != c,
    ensures
        replace_all(a + seq![c] + b, seq![c], r) == a + r + b,
{
    let s = a + seq![c] + b;
    assert forall|i: int| 0 <= i < s.len() && i != a.len() implies !occurs_at(s, seq![c], i) by {
        if occurs_at(s, seq![c], i) {
            lemma_occurs_char(s, seq![c], i, 0);
            if i < a.len() {
                assert(s[i] == a[i]);
            } else {
                assert(s[i] == b[i - a.len() - 1]);
            }
        }
    }
    lemma_replace_once(a, seq![c], b, r);
}

/// Replacing a pattern with a character that the text lacks leaves it
/// unchanged.
pub(crate) proof fn lemma_replace_missing(s: Seq<char>, p: Seq<char>, k: int, r: Seq<char>)
    requires
        0 <= k < p.len(),
        forall|j: int| 0 <= j < s.len() ==> s[j] != p[k],
    ensures
        replace_all(s, p, r) == s,
{
    lemma_missing_char(s, p, k);
    lemma_replace_none(s, p, r);
}


/// A letter of the Latin alphabet.
pub open spec fn is_letter(c: char) -> bool {
    ('a' <= c <= 'z') || ('A' <= c <= 'Z')
}

/// A character of a name: a letter, a digit or `_`.
pub open spec fn is_name_char(c: char) -> bool {
    is_letter(c) || is_digit(c) || c == '_'
}

/// A function name that compiling reads as one token: letters, digits and
/// `_`, starting with a letter or `_`, without the words `if`, `and`, `or`
/// and `not` inside it, and neither `True` nor `N`.
pub open spec fn plain_name(f: Seq<char>) -> bool {
    &&& f.len() > 0
    &&& (is_letter(f[0]) || f[0] == '_')
    &&& forall|i: int| 0 <= i < f.len() ==> is_name_char(#[trigger] f[i])
    &&& !contains_text(f, seq!['i', 'f'])
    &&& !contains_text(f, seq!['a', 'n', 'd'])
    &&& !contains_text(f, seq!['o', 'r'])
    &&& !contains_text(f, seq!['n', 'o', 't'])
    &&& f != seq!['T', 'r', 'u', 'e']
    &&& f != seq!['N']
}

/// A word of letters that a name lacks occurs in `x + f + y` only inside
/// `x`, when nothing in `y` is a letter.
proof fn lemma_word_outside_name(x: Seq<char>, f: Seq<char>, y: Seq<char>, p: Seq<char>)
    requires
        p.len() > 0,
        forall|k: int| 0 <= k < p.len() ==> is_letter(#[trigger] p[k]),
        !contains_text(f, p),
        forall|j: int| 0 <= j < y.len() ==> !is_letter(#[trigger] y[j]),
    ensures
        forall|i: int| x.len() <= i ==> !occurs_at(x + f + y, p, i),
{
    let s = x + f + y;
    assert forall|i: int| x.len() <= i implies !occurs_at(s, p, i) by {
        if occurs_at(s, p, i) {
            let e: int = (x.len() + f.len()) as int;
            if i + p.len() <= e {
                assert(f.subrange(i - x.len(), i - x.len() + p.len()) =~= s.subrange(i, i + p.len()));
                assert(occurs_at(f, p, i - x.len()));
            } else {
                let q = if i < e { e } else { i };
                lemma_occurs_char(s, p, i, q - i);
                assert(s[q] == y[q - e]);
                assert(is_letter(p[q - i]));
            }
        }
    }
}


/// A word that starts with none of `i`, `f` and space, and that a name
/// lacks, is nowhere in `if ` + name + a tail without letters.
proof fn lemma_keyword_absent(f: Seq<char>, tail: Seq<char>, p: Seq<char>, r: Seq<char>)
    requires
        p.len() > 0,
        forall|k: int| 0 <= k < p.len() ==> is_letter(#[trigger] p[k]),
        p[0] != 'i' && p[0] != 'f' && p[0] != ' ',
        !contains_text(f, p),
        forall|j: int| 0 <= j < tail.len() ==> !is_letter(#[trigger] tail[j]),
    ensures
        replace_all(seq!['i', 'f', ' '] + f + tail, p, r) == seq!['i', 'f', ' '] + f + tail,
{
    let x = seq!['i', 'f', ' '];
    let s = x + f + tail;
    lemma_word_outside_name(x, f, tail, p);
    assert forall|i: int| 0 <= i < s.len() implies !occurs_at(s, p, i) by {
        if i < 3 && occurs_at(s, p, i) {
            lemma_occurs_char(s, p, i, 0);
            assert(s[i] == x[i]);
        }
    }
    lemma_replace_none(s, p, r);
}

pub(crate) proof fn lemma_reveal_words()
    ensures
        "if"@ =~= seq!['i', 'f'],
        "if "@ =~= seq!['i', 'f', ' '],
        "and"@ =~= seq!['a', 'n', 'd'],
        "or"@ =~= seq!['o', 'r'],
        "not"@ =~= seq!['n', 'o', 't'],
        "=="@ =~= seq!['=', '='],
        " == "@ =~= seq![' ', '=', '=', ' '],
        "("@ =~= seq!['('],
        " ( "@ =~= seq![' ', '(', ' '],
        ")"@ =~= seq![')'],
        " ) "@ =~= seq![' ', ')', ' '],
        ":"@ =~= seq![':'],
        ","@ =~= seq![','],
        "!="@ =~= seq!['!', '='],
        "<="@ =~= seq!['<', '='],
        ">="@ =~= seq!['>', '='],
        "+"@ =~= seq!['+'],
        "-"@ =~= seq!['-'],
        "*"@ =~= seq!['*'],
        "/"@ =~= seq!['/'],
{
    reveal_strlit("if");
    reveal_strlit("if ");
    reveal_strlit("and");
    reveal_strlit("or");
    reveal_strlit("not");
    reveal_strlit("==");
    reveal_strlit(" == ");
    reveal_strlit("(");
    reveal_strlit(" ( ");
    reveal_strlit(")");
    reveal_strlit(" ) ");
    reveal_strlit(":");
    reveal_strlit(",");
    reveal_strlit("!=");
    reveal_strlit("<=");
    reveal_strlit(">=");
    reveal_strlit("+");
    reveal_strlit("-");
    reveal_strlit("*");
    reveal_strlit("/");
}

/// Setting the keywords of `if<name><tail>` apart, where the tail holds no
/// letter, adds one space after `if`; the keywords that the operators are
/// set apart from do not occur.
pub(crate) proof fn lemma_keywords_spread(f: Seq<char>, tail0: Seq<char>)
    requires
        plain_name(f),
        forall|j: int| 0 <= j < tail0.len() ==> !is_letter(#[trigger] tail0[j]),
    ensures
        crate::types::compile::condition_spec::spread_keywords(seq!['i', 'f'] + f + tail0) == seq!['i', 'f', ' ']
            + f + tail0,
        replace_all(seq!['i', 'f', ' '] + f + tail0, "and"@, " and "@) == seq!['i', 'f', ' '] + f + tail0,
        replace_all(seq!['i', 'f', ' '] + f + tail0, "or"@, " or "@) == seq!['i', 'f', ' '] + f + tail0,
        replace_all(seq!['i', 'f', ' '] + f + tail0, "not"@, " not "@) == seq!['i', 'f', ' '] + f + tail0,
{
    lemma_reveal_words();
    let w_if = seq!['i', 'f'];
    let x = seq!['i', 'f', ' '];
    let l0 = w_if + f + tail0;
    lemma_word_outside_name(w_if, f, tail0, w_if);
    assert forall|i: int| 0 <= i < l0.len() && i != 0 implies !occurs_at(l0, w_if, i) by {
        if i == 1 && occurs_at(l0, w_if, i) {
            lemma_occurs_char(l0, w_if, 1, 0);
        }
    }
    let e = Seq::<char>::empty();
    assert(e + w_if + (f + tail0) =~= l0);
    lemma_replace_once(e, w_if, f + tail0, x);
    assert(e + x + (f + tail0) =~= x + f + tail0);
    reveal_strlit(" and ");
    reveal_strlit(" or ");
    reveal_strlit(" not ");
    lemma_keyword_absent(f, tail0, seq!['a', 'n', 'd'], " and "@);
    lemma_keyword_absent(f, tail0, seq!['o', 'r'], " or "@);
    lemma_keyword_absent(f, tail0, seq!['n', 'o', 't'], " not "@);
}


/// Setting angles apart leaves a text without `<` and `>` as it is.
proof fn lemma_no_angles(s: Seq<char>, i: nat)
    requires
        i <= s.len(),
        forall|j: int| 0 <= j < s.len() ==> s[j] != '<' && s[j] != '>',
    ensures
        crate::types::compile::condition_spec::space_angles(s, i) == Some(s.skip(i as int)),
    decreases s.len() - i,
{
    if i < s.len() {
        lemma_no_angles(s, i + 1);
        assert(seq![s[i as int]] + s.skip(i + 1int) =~= s.skip(i as int));
    } else {
        assert(s.skip(i as int) =~= Seq::<char>::empty());
    }
}


/// Whether every function that the definitions name has a plain name.
pub open spec fn plain_defs(funcs: Seq<(Seq<char>, Seq<char>)>) -> bool {
    forall|i: int| 0 <= i < funcs.len() ==> plain_name(#[trigger] funcs[i].1)
}

/// No definition names what is not a plain name.
pub(crate) proof fn lemma_not_defined(funcs: Seq<(Seq<char>, Seq<char>)>, t: Seq<char>)
    requires
        plain_defs(funcs),
        !plain_name(t),
    ensures
        !defs_has_name(funcs, t),
{
    if defs_has_name(funcs, t) {
        let i = choose|i: int| 0 <= i < funcs.len() && (#[trigger] funcs[i]).1 == t;
        assert(plain_name(funcs[i].1));
    }
}

/// A text that starts with neither a digit nor a sign is no number.
pub(crate) proof fn lemma_not_number(t: Seq<char>, lo: int, hi: int)
    requires
        t.len() > 0,
        !is_digit(t[0]),
        t[0] != '-',
        t[0] != '+',
    ensures
        parse_in(t, lo, hi) is None,
{
}

/// A text holds itself.
pub(crate) proof fn lemma_contains_self(t: Seq<char>)
    ensures
        contains_text(t, t),
{
    assert(t.subrange(0, t.len() as int) =~= t);
    assert(occurs_at(t, t, 0));
}

/// The literal texts of the operators and keywords.
pub(crate) proof fn lemma_reveal_ops()
    ensures
        "<"@ =~= seq!['<'],
        ">"@ =~= seq!['>'],
        "N"@ =~= seq!['N'],
        "True"@ =~= seq!['T', 'r', 'u', 'e'],
{
    reveal_strlit("<");
    reveal_strlit(">");
    reveal_strlit("N");
    reveal_strlit("True");
}

/// A plain name is no operator.
proof fn lemma_plain_not_op(f: Seq<char>)
    requires
        plain_name(f),
    ensures
        crate::types::compile::condition_spec::precedence(f) is None,
        crate::types::compile::condition_spec::op_byte(f) is None,
        f != "True"@,
        f != "("@,
        f != ")"@,
        f != "if"@,
        f != ","@,
{
    lemma_reveal_words();
    lemma_reveal_ops();
    assert(is_name_char(f[0]));
    if f == seq!['a', 'n', 'd'] || f == seq!['o', 'r'] || f == seq!['n', 'o', 't'] || f == seq!['i', 'f'] {
        lemma_contains_self(f);
    }
}

/// `if` is no operator.
proof fn lemma_if_no_op()
    ensures
        precedence(seq!['i', 'f']) is None,
        seq!['i', 'f'] != "True"@,
        seq!['i', 'f'] != "("@,
        seq!['i', 'f'] != ")"@,
        seq!['i', 'f'] == "if"@,
{
    lemma_reveal_words();
    lemma_reveal_ops();
}

/// The conversion skips `if`.
#[verifier::rlimit(40)]
pub(crate) proof fn lemma_step_if(funcs: Seq<(Seq<char>, Seq<char>)>)
    requires
        plain_defs(funcs),
    ensures
        crate::types::compile::condition_spec::postfix_step(
            PostfixState { output: seq![], stack: seq![], values: seq![0], is_fn: seq![false], opens_call: false },
            seq!['i', 'f'],
            funcs,
        ) == Some(PostfixState { output: seq![], stack: seq![], values: seq![0], is_fn: seq![false], opens_call: false }),
{
    let w_if = seq!['i', 'f'];
    lemma_if_no_op();
    lemma_contains_self(w_if);
    lemma_not_defined(funcs, w_if);
    lemma_not_number(w_if, i64::MIN as int, i64::MAX as int);
}

/// The conversion puts a defined function into the output.
proof fn lemma_step_name(f: Seq<char>, funcs: Seq<(Seq<char>, Seq<char>)>)
    requires
        plain_defs(funcs),
        defs_has_name(funcs, f),
    ensures
        crate::types::compile::condition_spec::postfix_step(
            PostfixState { output: seq![], stack: seq![], values: seq![0], is_fn: seq![false], opens_call: false },
            f,
            funcs,
        ) == Some(PostfixState { output: seq![f], stack: seq![], values: seq![1], is_fn: seq![false, true], opens_call: true }),
{
    let i = choose|i: int| 0 <= i < funcs.len() && (#[trigger] funcs[i]).1 == f;
    assert(plain_name(funcs[i].1));
    assert(is_name_char(f[0]));
    lemma_not_number(f, i64::MIN as int, i64::MAX as int);
    assert(seq![0i32].update(0, 1) =~= seq![1i32]);
}

/// The conversion opens a group at `(`.
proof fn lemma_step_open(f: Seq<char>, funcs: Seq<(Seq<char>, Seq<char>)>)
    requires
        plain_defs(funcs),
    ensures
        crate::types::compile::condition_spec::postfix_step(
            PostfixState { output: seq![f], stack: seq![], values: seq![1], is_fn: seq![false, true], opens_call: true },
            seq!['('],
            funcs,
        ) == Some(
            PostfixState { output: seq![f], stack: seq![seq!['(']], values: seq![1, 0], is_fn: seq![false, true], opens_call: false },
        ),
{
    lemma_reveal_words();
    lemma_reveal_ops();
    let po = seq!['('];
    lemma_not_defined(funcs, po);
    lemma_not_number(po, i64::MIN as int, i64::MAX as int);
    assert(precedence(po) is None);
}

/// The conversion closes a function's group at `)`, adding its argument
/// count `(0)`.
proof fn lemma_step_close(f: Seq<char>, funcs: Seq<(Seq<char>, Seq<char>)>)
    requires
        plain_defs(funcs),
    ensures
        crate::types::compile::condition_spec::postfix_step(
            PostfixState { output: seq![f], stack: seq![seq!['(']], values: seq![1, 0], is_fn: seq![false, true], opens_call: false },
            seq![')'],
            funcs,
        ) == Some(
            PostfixState { output: seq![f, seq!['(', '0', ')']], stack: seq![], values: seq![1], is_fn: seq![false], opens_call: false },
        ),
{
    lemma_reveal_words();
    lemma_reveal_ops();
    let pc = seq![')'];
    lemma_not_defined(funcs, pc);
    lemma_not_number(pc, i64::MIN as int, i64::MAX as int);
    assert(precedence(pc) is None);
    assert(dec_int(0) =~= seq!['0']);
    assert(seq!['('] + dec_int(0) + seq![')'] =~= seq!['(', '0', ')']);
    assert(seq![seq!['(']].drop_last() =~= Seq::<Seq<char>>::empty());
    assert(seq![1i32, 0i32].drop_last() =~= seq![1i32]);
    assert(seq![false, true].drop_last() =~= seq![false]);
}

/// The conversion puts a number into the output.
pub(crate) proof fn lemma_step_number(out: Seq<Seq<char>>, stack: Seq<Seq<char>>, n: Seq<char>, funcs: Seq<(Seq<char>, Seq<char>)>)
    requires
        parse_in(n, i64::MIN as int, i64::MAX as int) is Some,
    ensures
        crate::types::compile::condition_spec::postfix_step(
            PostfixState { output: out, stack, values: seq![0], is_fn: seq![false], opens_call: false },
            n,
            funcs,
        ) == Some(PostfixState { output: out.push(n), stack, values: seq![1], is_fn: seq![false], opens_call: false }),
{
    assert(seq![0i32].update(0, 1) =~= seq![1i32]);
}


/// The bytes of a number in a condition: one byte up to 63, else `0x82` and
/// four little-endian bytes.
pub open spec fn number_bytes(v: nat) -> Seq<u8> {
    if v + 64 <= 0x7F {
        seq![(v + 64) as u8]
    } else {
        seq![0x82u8] + le4(v as u32)
    }
}

/// The bytes of the tokens of a comparison.
pub(crate) proof fn lemma_comparison_token_bytes(f: Seq<char>, v: nat, funcs: Seq<(Seq<char>, Seq<char>)>, id: int)
    requires
        plain_defs(funcs),
        defs_has_name(funcs, f),
        last_id_of(funcs, f, 0, 255) == Some(Some(id)),
        0 <= id < 64,
        v <= u32::MAX,
    ensures
        token_bytes(f, funcs) == Some(seq![(id + 64) as u8]),
        token_bytes(seq!['(', '0', ')'], funcs) == Some(seq![0x84u8]),
        token_bytes(dec_nat(v), funcs) == Some(number_bytes(v)),
        token_bytes(seq!['=', '='], funcs) == Some(seq![0x95u8]),
{
    lemma_reveal_words();
    lemma_reveal_ops();
    reveal_strlit("");
    let i = choose|i: int| 0 <= i < funcs.len() && (#[trigger] funcs[i]).1 == f;
    assert(plain_name(funcs[i].1));
    lemma_plain_not_op(f);
    assert forall|j: int| 0 <= j < f.len() implies f[j] != '(' by {
        assert(is_name_char(f[j]));
    }
    lemma_split_absent(f, '(');
    // `(0)`
    let c = seq!['(', '0', ')'];
    lemma_not_defined(funcs, c);
    assert(occurs_at(c, seq!['('], 0)) by {
        assert(c.subrange(0, 1) =~= seq!['(']);
    }
    assert(contains_text(c, "("@));
    assert(c =~= Seq::<char>::empty() + seq!['('] + seq!['0', ')']);
    lemma_replace_char_once(Seq::<char>::empty(), '(', seq!['0', ')'], Seq::<char>::empty());
    assert(Seq::<char>::empty() + Seq::<char>::empty() + seq!['0', ')'] =~= seq!['0', ')']);
    assert(seq!['0', ')'] =~= seq!['0'] + seq![')'] + Seq::<char>::empty());
    lemma_replace_char_once(seq!['0'], ')', Seq::<char>::empty(), Seq::<char>::empty());
    assert(seq!['0'] + Seq::<char>::empty() + Seq::<char>::empty() =~= seq!['0']);
    assert(is_digit('0'));
    assert(all_digits(seq!['0']));
    assert(digits_value(seq!['0']) == 0) by {
        assert(seq!['0'].drop_last() =~= Seq::<char>::empty());
        assert(digits_value(Seq::<char>::empty()) == 0);
        assert(seq!['0'].last() == '0');
    }
    assert(parse_in(seq!['0'], 0, 255) == Some(0int));
    // The number.
    let n = dec_nat(v);
    lemma_dec_nat_digits(v);
    lemma_digit_char(0);
    assert(is_digit(n[0]));
    lemma_not_defined(funcs, n);
    law_parse_printed_number(v as int, i64::MIN as int, i64::MAX as int);
    lemma_dec_int_plain(v as int);
    assert(dec_int(v as int) == n);
    lemma_no_char_not_contained(n, '(');
    assert(crate::types::compile::condition_spec::op_byte(n) is None);
    // `==`
    assert(crate::types::compile::condition_spec::op_byte(seq!['=', '=']) == Some(0x95u8));
}


/// One token of the bytecode: a token without colons, other than `True`,
/// adds its bytes.
pub(crate) proof fn lemma_cond_bytes_step(
    post: Seq<Seq<char>>,
    i: nat,
    acc: Seq<u8>,
    funcs: Seq<(Seq<char>, Seq<char>)>,
    b: Seq<u8>,
)
    requires
        i < post.len(),
        forall|j: int| 0 <= j < post[i as int].len() ==> post[i as int][j] != ':',
        post[i as int] != "True"@,
        token_bytes(post[i as int], funcs) == Some(b),
    ensures
        crate::types::compile::condition_spec::cond_bytes(post, i, acc, funcs)
            == crate::types::compile::condition_spec::cond_bytes(post, i + 1, acc + b, funcs),
{
    lemma_reveal_words();
    lemma_replace_absent(post[i as int], ':');
}

/// The postfix tokens of a comparison hold no colon and none is `True`.
pub(crate) proof fn lemma_comparison_post_plain(f: Seq<char>, v: nat)
    requires
        plain_name(f),
    ensures
        forall|j: int| 0 <= j < f.len() ==> f[j] != ':',
        forall|j: int| 0 <= j < dec_nat(v).len() ==> dec_nat(v)[j] != ':',
        forall|j: int| 0 <= j < 3 ==> seq!['(', '0', ')'][j] != ':',
        forall|j: int| 0 <= j < 2 ==> seq!['=', '='][j] != ':',
        f != "True"@,
        dec_nat(v) != "True"@,
        seq!['(', '0', ')'] != "True"@,
        seq!['=', '='] != "True"@,
{
    lemma_reveal_ops();
    lemma_plain_not_op(f);
    assert forall|j: int| 0 <= j < f.len() implies f[j] != ':' by {
        assert(is_name_char(f[j]));
    }
    lemma_dec_nat_digits(v);
    assert forall|j: int| 0 <= j < dec_nat(v).len() implies dec_nat(v)[j] != ':' by {
        assert(is_digit(dec_nat(v)[j]));
    }
    assert(dec_nat(v) != "True"@) by {
        assert(is_digit(dec_nat(v)[0]));
    }
}





/// The conversion puts a number inside a function's parentheses into the
/// output and counts it.
proof fn lemma_step_arg(f: Seq<char>, a: Seq<char>, funcs: Seq<(Seq<char>, Seq<char>)>)
    requires
        parse_in(a, i64::MIN as int, i64::MAX as int) is Some,
    ensures
        crate::types::compile::condition_spec::postfix_step(
            PostfixState { output: seq![f], stack: seq![seq!['(']], values: seq![1, 0], is_fn: seq![false, true], opens_call: false },
            a,
            funcs,
        ) == Some(
            PostfixState { output: seq![f, a], stack: seq![seq!['(']], values: seq![1, 1], is_fn: seq![false, true], opens_call: false },
        ),
{
    assert(seq![1i32, 0i32].update(1, 1) =~= seq![1i32, 1i32]);
    assert(seq![f].push(a) =~= seq![f, a]);
}

/// The conversion closes a function's group at `)`, adding its argument
/// count `(1)`.
proof fn lemma_step_close_one(f: Seq<char>, a: Seq<char>, funcs: Seq<(Seq<char>, Seq<char>)>)
    requires
        plain_defs(funcs),
    ensures
        crate::types::compile::condition_spec::postfix_step(
            PostfixState { output: seq![f, a], stack: seq![seq!['(']], values: seq![1, 1], is_fn: seq![false, true], opens_call: false },
            seq![')'],
            funcs,
        ) == Some(
            PostfixState { output: seq![f, a, seq!['(', '1', ')']], stack: seq![], values: seq![1], is_fn: seq![false], opens_call: false },
        ),
{
    lemma_reveal_words();
    lemma_reveal_ops();
    let pc = seq![')'];
    lemma_not_defined(funcs, pc);
    lemma_not_number(pc, i64::MIN as int, i64::MAX as int);
    assert(precedence(pc) is None);
    assert(dec_int(1) =~= seq!['1']);
    assert(seq!['('] + dec_int(1) + seq![')'] =~= seq!['(', '1', ')']);
    assert(seq![seq!['(']].drop_last() =~= Seq::<Seq<char>>::empty());
    assert(seq![1i32, 1i32].drop_last() =~= seq![1i32]);
    assert(seq![false, true].drop_last() =~= seq![false]);
    assert(seq![f, a].push(seq!['(', '1', ')']) =~= seq![f, a, seq!['(', '1', ')']]);
}


/// The argument count `(1)` compiles to `0x85`.
pub(crate) proof fn lemma_count_one_bytes(funcs: Seq<(Seq<char>, Seq<char>)>)
    requires
        plain_defs(funcs),
    ensures
        token_bytes(seq!['(', '1', ')'], funcs) == Some(seq![0x85u8]),
        forall|j: int| 0 <= j < 3 ==> seq!['(', '1', ')'][j] != ':',
        seq!['(', '1', ')'] != "True"@,
{
    lemma_reveal_words();
    lemma_reveal_ops();
    let c = seq!['(', '1', ')'];
    lemma_not_defined(funcs, c);
    assert(occurs_at(c, seq!['('], 0)) by {
        assert(c.subrange(0, 1) =~= seq!['(']);
    }
    assert(contains_text(c, "("@));
    assert(c =~= Seq::<char>::empty() + seq!['('] + seq!['1', ')']);
    lemma_replace_char_once(Seq::<char>::empty(), '(', seq!['1', ')'], Seq::<char>::empty());
    assert(Seq::<char>::empty() + Seq::<char>::empty() + seq!['1', ')'] =~= seq!['1', ')']);
    assert(seq!['1', ')'] =~= seq!['1'] + seq![')'] + Seq::<char>::empty());
    lemma_replace_char_once(seq!['1'], ')', Seq::<char>::empty(), Seq::<char>::empty());
    assert(seq!['1'] + Seq::<char>::empty() + Seq::<char>::empty() =~= seq!['1']);
    assert(is_digit('1'));
    assert(all_digits(seq!['1']));
    assert(digits_value(seq!['1']) == 1) by {
        assert(seq!['1'].drop_last() =~= Seq::<char>::empty());
        assert(digits_value(Seq::<char>::empty()) == 0);
        assert(seq!['1'].last() == '1');
    }
    assert(parse_in(seq!['1'], 0, 255) == Some(1int));
}


/// Running the bytes of a number pushes its decimal text.
pub(crate) proof fn lemma_stack_number(code: Seq<u8>, pos: nat, st: Seq<Seq<char>>, v: nat, funcs: Seq<(Seq<char>, Seq<char>)>)
    requires
        v <= u32::MAX,
        pos + number_bytes(v).len() <= code.len(),
        code.subrange(pos as int, (pos + number_bytes(v).len()) as int) == number_bytes(v),
    ensures
        cond_stack(code, pos, st, funcs) == cond_stack(
            code,
            pos + number_bytes(v).len(),
            st.push(dec_nat(v)),
            funcs,
        ),
{
    let nb = number_bytes(v);
    assert(code[pos as int] == code.subrange(pos as int, (pos + nb.len()) as int)[0]);
    if v + 64 <= 0x7F {
        assert(code[pos as int] == (v + 64) as u8);
    } else {
        law_le4_roundtrip(v as u32);
        assert(code[pos as int] == 0x82u8);
        assert(code.subrange(pos + 1int, pos + 5int) =~= le4(v as u32)) by {
            assert forall|k: int| 0 <= k < 4 implies #[trigger] code.subrange(pos + 1int, pos + 5int)[k] == le4(v as u32)[k] by {
                assert(code.subrange(pos + 1int, pos + 5int)[k] == code[pos + 1 + k]);
                assert(code[pos + 1 + k] == nb[1 + k]);
            }
        }
    }
}




/// A word followed by a number and a closing text, where the word's first
/// character occurs nowhere else, loses the word and the closing text when
/// both are replaced by nothing, leaving the number.
proof fn lemma_strip_index(w: Seq<char>, d: Seq<char>, z: Seq<char>)
    requires
        w.len() > 0,
        z.len() > 0,
        all_digits(d),
        forall|j: int| 1 <= j < w.len() ==> #[trigger] w[j] != w[0],
        !is_digit(w[0]),
        forall|j: int| 0 <= j < z.len() ==> z[j] != w[0] && !is_digit(z[j]),
        forall|j: int| 1 <= j < z.len() ==> #[trigger] z[j] != z[0],
    ensures
        replace_all(replace_all(w + d + z, w, seq![]), z, seq![]) == d,
{
    let s = w + d + z;
    let e = Seq::<char>::empty();
    assert forall|i: int| 0 <= i < s.len() && i != 0 implies !occurs_at(e + w + (d + z), w, i) by {
        assert(e + w + (d + z) =~= s);
        if occurs_at(s, w, i) {
            lemma_occurs_char(s, w, i, 0);
            if i < w.len() {
                assert(s[i] == w[i]);
            } else if i < w.len() + d.len() {
                assert(s[i] == d[i - w.len()]);
                assert(is_digit(d[i - w.len()]));
            } else {
                assert(s[i] == z[i - w.len() - d.len()]);
            }
        }
    }
    assert(e + w + (d + z) =~= s);
    lemma_replace_once(e, w, d + z, e);
    assert(e + e + (d + z) =~= d + z);
    let t = d + z;
    assert forall|i: int| 0 <= i < (d + z + e).len() && i != d.len() implies !occurs_at(d + z + e, z, i) by {
        assert(d + z + e =~= t);
        if occurs_at(t, z, i) {
            lemma_occurs_char(t, z, i, 0);
            if i < d.len() {
                assert(t[i] == d[i]);
                assert(is_digit(d[i]));
            } else {
                assert(t[i] == z[i - d.len()]);
            }
        }
    }
    assert(d + z + e =~= t);
    lemma_replace_once(d, z, e, e);
    assert(d + e + e =~= d);
}

/// The index that decompiling prints in a map line `def Map_<n>():`, a
/// state line `def State_<n>():` or a target line `State_<n>()` is the index
/// that compiling reads back from that line without its spaces.
pub proof fn law_index_lines_roundtrip(k: nat)
    requires
        k <= u32::MAX,
    ensures
        parse_in(replace_all(replace_all("defMap_"@ + dec_nat(k) + "():"@, "defMap_"@, seq![]), "():"@, seq![]), 0, u32::MAX as int) == Some(k as int),
        parse_in(replace_all(replace_all("defState_"@ + dec_nat(k) + "():"@, "defState_"@, seq![]), "():"@, seq![]), 0, u32::MAX as int) == Some(k as int),
        parse_in(replace_all(replace_all("State_"@ + dec_nat(k) + "()"@, "State_"@, seq![]), "()"@, seq![]), 0, u32::MAX as int) == Some(k as int),
{
    reveal_strlit("defMap_");
    reveal_strlit("defState_");
    reveal_strlit("State_");
    reveal_strlit("():");
    reveal_strlit("()");
    assert("defMap_"@ =~= seq!['d', 'e', 'f', 'M', 'a', 'p', '_']);
    assert("defState_"@ =~= seq!['d', 'e', 'f', 'S', 't', 'a', 't', 'e', '_']);
    assert("State_"@ =~= seq!['S', 't', 'a', 't', 'e', '_']);
    assert("():"@ =~= seq!['(', ')', ':']);
    assert("()"@ =~= seq!['(', ')']);
    let d = dec_nat(k);
    lemma_dec_nat_digits(k);
    lemma_strip_index("defMap_"@, d, "():"@);
    lemma_strip_index("defState_"@, d, "():"@);
    lemma_strip_index("State_"@, d, "()"@);
    law_parse_printed_number(k as int, 0, u32::MAX as int);
    assert(dec_int(k as int) == d);
}


/// The comparison operators of conditions.
pub open spec fn comparison_op(op: Seq<char>) -> bool {
    ||| op == seq!['=', '=']
    ||| op == seq!['!', '=']
    ||| op == seq!['<', '=']
    ||| op == seq!['>', '=']
    ||| op == seq!['<']
    ||| op == seq!['>']
}

/// The characters that comparison operators are made of.
spec fn is_op_char(c: char) -> bool {
    c == '=' || c == '!' || c == '<' || c == '>'
}

/// A two-character pattern of operator characters occurs in
/// `pre + op + post`, where only the operator holds such characters, at
/// most where the operator stands, and only as the operator.
proof fn lemma_op_region(pre: Seq<char>, op: Seq<char>, post: Seq<char>, p: Seq<char>)
    requires
        comparison_op(op),
        forall|j: int| 0 <= j < pre.len() ==> !is_op_char(#[trigger] pre[j]),
        forall|j: int| 0 <= j < post.len() ==> !is_op_char(#[trigger] post[j]),
        p.len() == 2,
        is_op_char(p[0]),
        is_op_char(p[1]),
    ensures
        forall|i: int| 0 <= i < (pre + op + post).len() && i != pre.len() ==> !occurs_at(pre + op + post, p, i),
        occurs_at(pre + op + post, p, pre.len() as int) ==> p == op,
{
    let s = pre + op + post;
    let q = pre.len() as int;
    assert forall|i: int| 0 <= i < s.len() && i != q implies !occurs_at(s, p, i) by {
        if occurs_at(s, p, i) {
            lemma_occurs_char(s, p, i, 0);
            lemma_occurs_char(s, p, i, 1);
            if i < q {
                assert(s[i] == pre[i]);
            } else if i < q + op.len() {
                if op.len() == 1 {
                    assert(s[i + 1] == post[i + 1 - q - 1]);
                } else {
                    assert(i == q + 1);
                    assert(s[i + 1] == post[0]);
                }
            } else {
                assert(s[i] == post[i - q - op.len()]);
            }
        }
    }
    if occurs_at(s, p, q) {
        lemma_occurs_char(s, p, q, 0);
        lemma_occurs_char(s, p, q, 1);
        if op.len() == 1 {
            assert(s[q + 1] == post[0]);
        } else {
            assert(s.subrange(q, q + 2) =~= op);
        }
    }
}

/// One operator pass on `pre + op + post`, or on it with the operator set
/// apart already: the pattern is set apart where it is the operator.
proof fn lemma_op_step(pre: Seq<char>, op: Seq<char>, post: Seq<char>, p: Seq<char>, done: bool)
    requires
        comparison_op(op),
        forall|j: int| 0 <= j < pre.len() ==> !is_op_char(#[trigger] pre[j]),
        forall|j: int| 0 <= j < post.len() ==> !is_op_char(#[trigger] post[j]),
        p.len() == 2,
        is_op_char(p[0]),
        is_op_char(p[1]),
        done ==> p != op,
    ensures
        ({
            let spread = pre + seq![' '] + op + seq![' '] + post;
            let cur = if done { spread } else { pre + op + post };
            replace_all(cur, p, seq![' '] + p + seq![' ']) == if p == op { spread } else { cur }
        }),
{
    let pre2 = if done { pre + seq![' '] } else { pre };
    let post2 = if done { seq![' '] + post } else { post };
    assert forall|j: int| 0 <= j < pre2.len() implies !is_op_char(#[trigger] pre2[j]) by {
        if j < pre.len() {
            assert(pre2[j] == pre[j]);
        }
    }
    assert forall|j: int| 0 <= j < post2.len() implies !is_op_char(#[trigger] post2[j]) by {
        if done && j > 0 {
            assert(post2[j] == post[j - 1]);
        }
    }
    lemma_op_region(pre2, op, post2, p);
    let cur = pre2 + op + post2;
    assert(cur =~= if done { pre + seq![' '] + op + seq![' '] + post } else { pre + op + post });
    if p == op {
        lemma_replace_once(pre2, op, post2, seq![' '] + op + seq![' ']);
        assert(pre2 + (seq![' '] + op + seq![' ']) + post2 =~= pre + seq![' '] + op + seq![' '] + post);
    } else {
        if occurs_at(cur, p, pre2.len() as int) {
            assert(p == op);
        }
        lemma_replace_none(cur, p, seq![' '] + p + seq![' ']);
    }
}

/// The text of a comparison operator after the operator passes: a
/// two-character operator is set apart by spaces.
spec fn op_spread(op: Seq<char>) -> Seq<char> {
    if op.len() == 2 {
        seq![' '] + op + seq![' ']
    } else {
        op
    }
}

/// The four passes for two-character operators set the operator of
/// `pre + op + post` apart when it has two characters.
proof fn lemma_op_passes(pre: Seq<char>, op: Seq<char>, post: Seq<char>)
    requires
        comparison_op(op),
        forall|j: int| 0 <= j < pre.len() ==> !is_op_char(#[trigger] pre[j]),
        forall|j: int| 0 <= j < post.len() ==> !is_op_char(#[trigger] post[j]),
    ensures
        replace_all(
            replace_all(
                replace_all(replace_all(pre + op + post, "=="@, " == "@), "!="@, " != "@),
                "<="@,
                " <= "@,
            ),
            ">="@,
            " >= "@,
        ) == pre + op_spread(op) + post,
{
    lemma_reveal_words();
    reveal_strlit(" != ");
    reveal_strlit(" <= ");
    reveal_strlit(" >= ");
    let p1 = seq!['=', '='];
    let p2 = seq!['!', '='];
    let p3 = seq!['<', '='];
    let p4 = seq!['>', '='];
    assert(" != "@ =~= seq![' '] + p2 + seq![' ']);
    assert(" <= "@ =~= seq![' '] + p3 + seq![' ']);
    assert(" >= "@ =~= seq![' '] + p4 + seq![' ']);
    assert(" == "@ =~= seq![' '] + p1 + seq![' ']);
    let spread = pre + seq![' '] + op + seq![' '] + post;
    let d1 = op == p1;
    let d2 = d1 || op == p2;
    let d3 = d2 || op == p3;
    let d4 = d3 || op == p4;
    lemma_op_step(pre, op, post, p1, false);
    lemma_op_step(pre, op, post, p2, d1);
    lemma_op_step(pre, op, post, p3, d2);
    lemma_op_step(pre, op, post, p4, d3);
    assert(d4 <==> op.len() == 2);
    assert(pre + op_spread(op) + post =~= if op.len() == 2 { spread } else { pre + op + post });
}


/// The characters of a comparison line.
spec fn line_char(c: char) -> bool {
    is_name_char(c) || c == ' ' || c == '(' || c == ')' || c == ':' || is_op_char(c)
}

/// Setting angles apart leaves a text alone from `i` on when each `<` and
/// `>` there is followed by `=`.
pub(crate) proof fn lemma_angles_before_eq(s: Seq<char>, i: nat)
    requires
        i <= s.len(),
        forall|j: int| i <= j < s.len() && (#[trigger] s[j] == '<' || s[j] == '>') ==> j + 1 < s.len() && s[j + 1] == '=',
    ensures
        crate::types::compile::condition_spec::space_angles(s, i) == Some(s.skip(i as int)),
    decreases s.len() - i,
{
    if i < s.len() {
        lemma_angles_before_eq(s, i + 1);
        assert(seq![s[i as int]] + s.skip(i + 1int) =~= s.skip(i as int));
    } else {
        assert(s.skip(i as int) =~= Seq::<char>::empty());
    }
}

/// Setting angles apart puts spaces around a lone `<` or `>` that is not
/// followed by `=`.
proof fn lemma_angle_insert(pre: Seq<char>, c: char, post: Seq<char>, i: nat)
    requires
        c == '<' || c == '>',
        forall|j: int| 0 <= j < pre.len() ==> pre[j] != '<' && pre[j] != '>',
        forall|j: int| 0 <= j < post.len() ==> post[j] != '<' && post[j] != '>',
        post.len() > 0,
        post[0] != '=',
        i <= pre.len(),
    ensures
        crate::types::compile::condition_spec::space_angles(pre + seq![c] + post, i) == Some(
            pre.skip(i as int) + seq![' ', c, ' '] + post,
        ),
    decreases pre.len() - i,
{
    let s = pre + seq![c] + post;
    if i < pre.len() {
        lemma_angle_insert(pre, c, post, i + 1);
        assert(s[i as int] == pre[i as int]);
        assert(seq![pre[i as int]] + (pre.skip(i + 1int) + seq![' ', c, ' '] + post) =~= pre.skip(i as int)
            + seq![' ', c, ' '] + post);
    } else {
        assert forall|j: int| i + 1 <= j < s.len() && (#[trigger] s[j] == '<' || s[j] == '>') implies j + 1 < s.len()
            && s[j + 1] == '=' by {
            assert(s[j] == post[j - i - 1]);
        }
        lemma_angles_before_eq(s, i + 1);
        assert(s.skip(i + 1int) =~= post);
        assert(s[i as int] == c);
        assert(s[i + 1int] == post[0]);
        assert(pre.skip(i as int) =~= Seq::<char>::empty());
        assert(seq![' ', c, ' '] + post =~= pre.skip(i as int) + seq![' ', c, ' '] + post);
    }
}

/// The text of the comparison line `if<name>(<arg>)<op><number>:`.
pub(crate) open spec fn comparison_text(f: Seq<char>, a: Seq<char>, op: Seq<char>, n: Seq<char>) -> Seq<char> {
    seq!['i', 'f'] + f + seq!['('] + a + seq![')'] + op + n + seq![':']
}

/// The spread-out text of a comparison line, after angles are set apart.
spec fn comparison_words(f: Seq<char>, a: Seq<char>, op: Seq<char>, n: Seq<char>) -> Seq<char> {
    seq!['i', 'f', ' '] + f + seq![' ', '(', ' '] + a + seq![' ', ')', ' '] + seq![' '] + op + seq![' '] + n
}

/// Setting apart the parentheses of `if <name>(<arg>)<op><number>:` and
/// dropping the colon.
#[verifier::rlimit(40)]
proof fn lemma_comparison_apart(f: Seq<char>, a: Seq<char>, ops: Seq<char>, n: Seq<char>)
    requires
        plain_name(f),
        forall|j: int| 0 <= j < a.len() ==> is_digit(#[trigger] a[j]),
        all_digits(n),
        forall|j: int| 0 <= j < ops.len() ==> (#[trigger] ops[j] == ' ' || is_op_char(ops[j])),
    ensures
        ({
            let x = seq!['i', 'f', ' '];
            let l2 = x + f + seq!['('] + a + seq![')'] + ops + (n + seq![':']);
            let l3 = replace_all(l2, "("@, " ( "@);
            let l4 = replace_all(l3, ")"@, " ) "@);
            let l5 = replace_all(replace_all(l4, ","@, " "@), ":"@, seq![]);
            &&& replace_all(l2, "+"@, " + "@) == l2
            &&& replace_all(l2, "-"@, " - "@) == l2
            &&& replace_all(l2, "*"@, " * "@) == l2
            &&& replace_all(l2, "/"@, " / "@) == l2
            &&& l5 == x + f + seq![' ', '(', ' '] + a + seq![' ', ')', ' '] + ops + n
        }),
{
    lemma_reveal_words();
    reveal_strlit(" ");
    let x = seq!['i', 'f', ' '];
    let b2 = n + seq![':'];
    assert forall|j: int| 0 <= j < a.len() implies line_char(#[trigger] a[j]) && a[j] != '(' && a[j] != ')' && a[j] != ':' by {
        assert(is_digit(a[j]));
    }
    assert forall|j: int| 0 <= j < n.len() implies line_char(#[trigger] n[j]) && n[j] != '(' && n[j] != ')' && n[j] != ':' by {
        assert(is_digit(n[j]));
    }
    assert forall|j: int| 0 <= j < f.len() implies line_char(#[trigger] f[j]) && f[j] != '(' && f[j] != ')' && f[j] != ':' by {
        assert(is_name_char(f[j]));
    }
    assert forall|j: int| 0 <= j < ops.len() implies line_char(#[trigger] ops[j]) && ops[j] != '(' && ops[j] != ')' && ops[j] != ':' by {
        assert(ops[j] == ' ' || is_op_char(ops[j]));
    }
    let l2 = x + f + seq!['('] + a + seq![')'] + ops + b2;
    assert forall|j: int| 0 <= j < l2.len() implies line_char(#[trigger] l2[j]) by {
        let k1 = 3 + f.len();
        let k2 = k1 + 1 + a.len();
        let k3 = k2 + 1 + ops.len();
        if 3 <= j < k1 {
            assert(l2[j] == f[j - 3]);
        } else if k1 < j < k2 {
            assert(l2[j] == a[j - k1 - 1]);
        } else if k2 < j < k3 {
            assert(l2[j] == ops[j - k2 - 1]);
        } else if k3 <= j < k3 + n.len() {
            assert(l2[j] == n[j - k3]);
        }
    }
    lemma_replace_missing(l2, "+"@, 0, " + "@);
    lemma_replace_missing(l2, "-"@, 0, " - "@);
    lemma_replace_missing(l2, "*"@, 0, " * "@);
    lemma_replace_missing(l2, "/"@, 0, " / "@);
    // The opening parenthesis.
    let b3 = a + seq![')'] + ops + b2;
    assert(l2 =~= (x + f) + seq!['('] + b3);
    assert forall|j: int| 0 <= j < (x + f).len() implies (x + f)[j] != '(' by {
        if 3 <= j {
            assert((x + f)[j] == f[j - 3]);
        }
    }
    assert forall|j: int| 0 <= j < b3.len() implies b3[j] != '(' by {
        let k1 = a.len();
        let k2 = k1 + 1 + ops.len();
        if j < k1 {
            assert(b3[j] == a[j]);
        } else if k1 < j < k2 {
            assert(b3[j] == ops[j - k1 - 1]);
        } else if k2 <= j < k2 + n.len() {
            assert(b3[j] == n[j - k2]);
        }
    }
    lemma_replace_char_once(x + f, '(', b3, " ( "@);
    // The closing parenthesis.
    let a4 = x + f + seq![' ', '(', ' '] + a;
    let b4 = ops + b2;
    let l3 = a4 + seq![')'] + b4;
    assert(x + f + " ( "@ + b3 =~= l3);
    assert forall|j: int| 0 <= j < a4.len() implies a4[j] != ')' by {
        if 3 <= j < 3 + f.len() {
            assert(a4[j] == f[j - 3]);
        } else if 6 + f.len() <= j {
            assert(a4[j] == a[j - 6 - f.len()]);
        }
    }
    assert forall|j: int| 0 <= j < b4.len() implies b4[j] != ')' by {
        if j < ops.len() {
            assert(b4[j] == ops[j]);
        } else if ops.len() <= j < ops.len() + n.len() {
            assert(b4[j] == n[j - ops.len()]);
        }
    }
    lemma_replace_char_once(a4, ')', b4, " ) "@);
    // No commas; the colon goes.
    let a5 = a4 + seq![' ', ')', ' '] + ops + n;
    let l4 = a5 + seq![':'] + Seq::<char>::empty();
    assert(a4 + " ) "@ + b4 =~= l4);
    assert forall|j: int| 0 <= j < a5.len() implies line_char(#[trigger] a5[j]) && a5[j] != ':' by {
        let k1 = 6 + f.len();
        let k2 = k1 + a.len() + 3;
        let k3 = k2 + ops.len();
        if 3 <= j < 3 + f.len() {
            assert(a5[j] == f[j - 3]);
        } else if k1 <= j < k1 + a.len() {
            assert(a5[j] == a[j - k1]);
        } else if k2 <= j < k3 {
            assert(a5[j] == ops[j - k2]);
        } else if k3 <= j {
            assert(a5[j] == n[j - k3]);
        }
    }
    assert forall|j: int| 0 <= j < l4.len() implies l4[j] != ',' by {
        if j < a5.len() {
            assert(l4[j] == a5[j]);
        }
    }
    lemma_replace_missing(l4, ","@, 0, " "@);
    lemma_replace_char_once(a5, ':', Seq::<char>::empty(), Seq::<char>::empty());
    assert(a5 + Seq::<char>::empty() + Seq::<char>::empty() =~= a5);
}


/// Splitting a comparison line into the words that the tokenizer then
/// splits at spaces.
#[verifier::rlimit(40)]
proof fn lemma_comparison_words(f: Seq<char>, a: Seq<char>, op: Seq<char>, n: Seq<char>)
    requires
        plain_name(f),
        forall|j: int| 0 <= j < a.len() ==> is_digit(#[trigger] a[j]),
        all_digits(n),
        comparison_op(op),
    ensures
        crate::types::compile::condition_spec::space_angles(
            crate::types::compile::condition_spec::spread_operators(
                crate::types::compile::condition_spec::spread_keywords(comparison_text(f, a, op, n)),
            ),
            0,
        ) == Some(comparison_words(f, a, op, n)),
{
    lemma_reveal_words();
    let x = seq!['i', 'f', ' '];
    let tail0 = seq!['('] + a + seq![')'] + op + n + seq![':'];
    assert forall|j: int| 0 <= j < tail0.len() implies !is_letter(#[trigger] tail0[j]) by {
        let k1 = 1 + a.len();
        let k2 = k1 + 1 + op.len();
        if 1 <= j < k1 {
            assert(tail0[j] == a[j - 1]);
        } else if k1 < j < k2 {
            assert(tail0[j] == op[j - k1 - 1]);
        } else if k2 <= j < k2 + n.len() {
            assert(tail0[j] == n[j - k2]);
            assert(is_digit(n[j - k2]));
        }
    }
    assert(comparison_text(f, a, op, n) =~= seq!['i', 'f'] + f + tail0);
    lemma_keywords_spread(f, tail0);
    let pre = x + f + seq!['('] + a + seq![')'];
    let post = n + seq![':'];
    assert(x + f + tail0 =~= pre + op + post);
    assert forall|j: int| 0 <= j < pre.len() implies !is_op_char(#[trigger] pre[j]) by {
        if 3 <= j < 3 + f.len() {
            assert(pre[j] == f[j - 3]);
            assert(is_name_char(f[j - 3]));
        } else if 4 + f.len() <= j < 4 + f.len() + a.len() {
            assert(pre[j] == a[j - 4 - f.len()]);
        }
    }
    assert forall|j: int| 0 <= j < post.len() implies !is_op_char(#[trigger] post[j]) by {
        if j < n.len() {
            assert(post[j] == n[j]);
            assert(is_digit(n[j]));
        }
    }
    lemma_op_passes(pre, op, post);
    let ops = op_spread(op);
    assert forall|j: int| 0 <= j < ops.len() implies (#[trigger] ops[j] == ' ' || is_op_char(ops[j])) by {
        if op.len() == 2 && 1 <= j < 3 {
            assert(ops[j] == op[j - 1]);
        }
    }
    assert(pre + ops + post =~= x + f + seq!['('] + a + seq![')'] + ops + (n + seq![':']));
    lemma_comparison_apart(f, a, ops, n);
    let l5 = x + f + seq![' ', '(', ' '] + a + seq![' ', ')', ' '] + ops + n;
    let pp = x + f + seq![' ', '(', ' '] + a + seq![' ', ')', ' '];
    assert forall|j: int| 0 <= j < pp.len() implies pp[j] != '<' && pp[j] != '>' by {
        if 3 <= j < 3 + f.len() {
            assert(pp[j] == f[j - 3]);
            assert(is_name_char(f[j - 3]));
        } else if 6 + f.len() <= j < 6 + f.len() + a.len() {
            assert(pp[j] == a[j - 6 - f.len()]);
        }
    }
    assert forall|j: int| 0 <= j < n.len() implies n[j] != '<' && n[j] != '>' by {
        assert(is_digit(n[j]));
    }
    if op.len() == 2 {
        assert(l5 =~= comparison_words(f, a, op, n));
        assert forall|j: int| 0 <= j < l5.len() && (#[trigger] l5[j] == '<' || l5[j] == '>') implies j + 1 < l5.len()
            && l5[j + 1] == '=' by {
            let q = pp.len() as int;
            if j < q {
                assert(l5[j] == pp[j]);
            } else if j == q || j == q + 3 {
            } else if j == q + 1 {
                assert(l5[j + 1] == op[1]);
            } else if j == q + 2 {
                assert(l5[j] == op[1]);
            } else {
                assert(l5[j] == n[j - q - 4]);
            }
        }
        lemma_angles_before_eq(l5, 0);
        assert(l5.skip(0) =~= l5);
    } else {
        let c = op[0];
        assert(op =~= seq![c]);
        assert(l5 =~= pp + seq![c] + n);
        lemma_angle_insert(pp, c, n, 0);
        assert(pp.skip(0) =~= pp);
        assert(n[0] != '=') by {
            assert(is_digit(n[0]));
        }
        assert(pp + seq![' ', c, ' '] + n =~= comparison_words(f, a, op, n));
    }
}


/// The tokens of a comparison line: `if`, the name, the parentheses around
/// the argument (when there is one), the operator and the number.
pub(crate) open spec fn comparison_tokens(f: Seq<char>, a: Seq<char>, op: Seq<char>, n: Seq<char>) -> Seq<Seq<char>> {
    if a.len() == 0 {
        seq![seq!['i', 'f'], f, seq!['('], seq![')'], op, n]
    } else {
        seq![seq!['i', 'f'], f, seq!['('], a, seq![')'], op, n]
    }
}

/// The pieces between the spaces of a spread-out comparison line.
#[verifier::rlimit(40)]
proof fn lemma_comparison_line_pieces(f: Seq<char>, a: Seq<char>, op: Seq<char>, n: Seq<char>)
    requires
        plain_name(f),
        forall|j: int| 0 <= j < a.len() ==> is_digit(#[trigger] a[j]),
        all_digits(n),
        comparison_op(op),
    ensures
        split_on(comparison_words(f, a, op, n), ' ') == seq![
            seq!['i', 'f'],
            f,
            seq!['('],
            a,
            seq![')'],
            Seq::<char>::empty(),
            op,
            n,
        ],
{
    let sp = seq![' '];
    let w_if = seq!['i', 'f'];
    let e = Seq::<char>::empty();
    let r7 = op + sp + n;
    let r6 = e + sp + r7;
    let r5 = seq![')'] + sp + r6;
    let r4 = a + sp + r5;
    let r3 = seq!['('] + sp + r4;
    let r2 = f + sp + r3;
    let r1 = w_if + sp + r2;
    assert(comparison_words(f, a, op, n) =~= r1);
    assert forall|j: int| 0 <= j < n.len() implies n[j] != ' ' by {
        assert(is_digit(n[j]));
    }
    assert forall|j: int| 0 <= j < a.len() implies a[j] != ' ' by {
        assert(is_digit(a[j]));
    }
    assert forall|j: int| 0 <= j < f.len() implies f[j] != ' ' by {
        assert(is_name_char(f[j]));
    }
    lemma_op_code(op);
    lemma_split_absent(n, ' ');
    lemma_split_absent(a, ' ');
    lemma_split_absent(f, ' ');
    lemma_split_absent(w_if, ' ');
    lemma_split_absent(seq!['('], ' ');
    lemma_split_absent(seq![')'], ' ');
    lemma_split_absent(op, ' ');
    lemma_split_absent(e, ' ');
    lemma_split_at_sep(op, ' ', n);
    lemma_split_at_sep(e, ' ', r7);
    lemma_split_at_sep(seq![')'], ' ', r6);
    lemma_split_at_sep(a, ' ', r5);
    lemma_split_at_sep(seq!['('], ' ', r4);
    lemma_split_at_sep(f, ' ', r3);
    lemma_split_at_sep(w_if, ' ', r2);
    assert(split_on(r1, ' ') =~= seq![w_if, f, seq!['('], a, seq![')'], e, op, n]);
}

/// The non-empty pieces of a comparison line are its tokens.
proof fn lemma_comparison_nonempty(f: Seq<char>, a: Seq<char>, op: Seq<char>, n: Seq<char>)
    requires
        f.len() > 0,
        op.len() > 0,
        n.len() > 0,
    ensures
        crate::types::compile::condition_spec::non_empty(
            seq![seq!['i', 'f'], f, seq!['('], a, seq![')'], Seq::<char>::empty(), op, n],
        ) == comparison_tokens(f, a, op, n),
{
    reveal_with_fuel(crate::types::compile::condition_spec::non_empty, 9);
    let pieces = seq![seq!['i', 'f'], f, seq!['('], a, seq![')'], Seq::<char>::empty(), op, n];
    assert(crate::types::compile::condition_spec::non_empty(pieces) =~= comparison_tokens(f, a, op, n));
}

/// The tokens of the comparison line `if<name>(<arg>)<op><number>:`.
pub(crate) proof fn lemma_comparison_line_tokens(f: Seq<char>, a: Seq<char>, op: Seq<char>, n: Seq<char>)
    requires
        plain_name(f),
        forall|j: int| 0 <= j < a.len() ==> is_digit(#[trigger] a[j]),
        all_digits(n),
        comparison_op(op),
    ensures
        crate::types::compile::condition_spec::tokenize_spec(
            crate::types::compile::condition_spec::spread_keywords(comparison_text(f, a, op, n)),
        ) == Some(comparison_tokens(f, a, op, n)),
{
    lemma_comparison_words(f, a, op, n);
    lemma_comparison_line_pieces(f, a, op, n);
    lemma_comparison_nonempty(f, a, op, n);
}

/// The byte of a comparison operator, and the operator that decompiling
/// reads for that byte.
pub(crate) proof fn lemma_op_code(op: Seq<char>)
    requires
        comparison_op(op),
    ensures
        crate::types::compile::condition_spec::op_byte(op) matches Some(b) && 0x91 <= b <= 0x96
            && crate::types::decompile::condition_spec::op_name(b) == Some(op),
        precedence(op) == Some(3int),
        crate::types::decompile::condition_spec::is_eq_token(op),
        is_binary_token(op),
        op != "True"@,
        op != "not"@,
        forall|j: int| 0 <= j < op.len() ==> op[j] != ':' && op[j] != ' ',
{
    lemma_reveal_words();
    lemma_reveal_ops();
    if op == seq!['=', '='] {
        assert(crate::types::compile::condition_spec::op_byte(op) == Some(0x95u8));
    } else if op == seq!['!', '='] {
        assert(crate::types::compile::condition_spec::op_byte(op) == Some(0x96u8));
    } else if op == seq!['<', '='] {
        assert(crate::types::compile::condition_spec::op_byte(op) == Some(0x91u8));
    } else if op == seq!['>', '='] {
        assert(crate::types::compile::condition_spec::op_byte(op) == Some(0x92u8));
    } else {
        assert(op.len() == 1);
        assert(op != "+"@ && op != "N"@ && op != "-"@ && op != "*"@ && op != "/"@) by {
            assert("+"@[0] == '+' && "N"@[0] == 'N' && "-"@[0] == '-' && "*"@[0] == '*' && "/"@[0] == '/');
        }
        if op == seq!['<'] {
            assert(crate::types::compile::condition_spec::op_byte(op) == Some(0x93u8));
        } else {
            assert(op != "<"@) by {
                assert("<"@[0] == '<');
            }
            assert(crate::types::compile::condition_spec::op_byte(op) == Some(0x94u8));
        }
    }
}

/// The conversion holds a comparison operator back on the stack.
proof fn lemma_step_op(out: Seq<Seq<char>>, op: Seq<char>, funcs: Seq<(Seq<char>, Seq<char>)>)
    requires
        plain_defs(funcs),
        comparison_op(op),
    ensures
        crate::types::compile::condition_spec::postfix_step(
            PostfixState { output: out, stack: seq![], values: seq![1], is_fn: seq![false], opens_call: false },
            op,
            funcs,
        ) == Some(PostfixState { output: out, stack: seq![op], values: seq![0], is_fn: seq![false], opens_call: false }),
{
    lemma_op_code(op);
    assert(!is_name_char(op[0]));
    lemma_not_defined(funcs, op);
    lemma_not_number(op, i64::MIN as int, i64::MAX as int);
    assert(seq![1i32].update(0, 0) =~= seq![0i32]);
}

/// The postfix order of the tokens of a comparison of a function without
/// arguments.
proof fn lemma_op_postfix_zero(f: Seq<char>, op: Seq<char>, n: Seq<char>, funcs: Seq<(Seq<char>, Seq<char>)>)
    requires
        plain_defs(funcs),
        defs_has_name(funcs, f),
        comparison_op(op),
        parse_in(n, i64::MIN as int, i64::MAX as int) is Some,
    ensures
        crate::types::compile::condition_spec::to_postfix_spec(
            seq![seq!['i', 'f'], f, seq!['('], seq![')'], op, n],
            funcs,
        ) == Some(seq![f, seq!['(', '0', ')'], n, op]),
{
    let tokens = seq![seq!['i', 'f'], f, seq!['('], seq![')'], op, n];
    let s0 = PostfixState { output: seq![], stack: seq![], values: seq![0], is_fn: seq![false], opens_call: false };
    let out4 = seq![f, seq!['(', '0', ')']];
    lemma_step_if(funcs);
    lemma_step_name(f, funcs);
    lemma_step_open(f, funcs);
    lemma_step_close(f, funcs);
    lemma_step_op(out4, op, funcs);
    lemma_step_number(out4, seq![op], n, funcs);
    assert(postfix_run(tokens, 0, funcs) == Some(s0));
    assert(postfix_run(tokens, 1, funcs) == Some(s0));
    assert(postfix_run(tokens, 2, funcs) is Some);
    assert(postfix_run(tokens, 3, funcs) is Some);
    assert(postfix_run(tokens, 4, funcs) is Some);
    assert(postfix_run(tokens, 5, funcs) is Some);
    assert(postfix_run(tokens, 6, funcs) == Some(
        PostfixState { output: out4.push(n), stack: seq![op], values: seq![1], is_fn: seq![false], opens_call: false },
    ));
    assert(seq![op].drop_last() =~= Seq::<Seq<char>>::empty());
    assert(reversed(Seq::<Seq<char>>::empty()) == Seq::<Seq<char>>::empty());
    assert(seq![op].last() == op);
    assert(reversed(seq![op]) =~= seq![op]);
    assert(out4.push(n) + seq![op] =~= seq![f, seq!['(', '0', ')'], n, op]);
}

/// The postfix order of the tokens of a comparison of a function of one
/// argument.
proof fn lemma_op_postfix_one(f: Seq<char>, a: Seq<char>, op: Seq<char>, n: Seq<char>, funcs: Seq<(Seq<char>, Seq<char>)>)
    requires
        plain_defs(funcs),
        defs_has_name(funcs, f),
        comparison_op(op),
        parse_in(a, i64::MIN as int, i64::MAX as int) is Some,
        parse_in(n, i64::MIN as int, i64::MAX as int) is Some,
    ensures
        crate::types::compile::condition_spec::to_postfix_spec(
            seq![seq!['i', 'f'], f, seq!['('], a, seq![')'], op, n],
            funcs,
        ) == Some(seq![f, a, seq!['(', '1', ')'], n, op]),
{
    let tokens = seq![seq!['i', 'f'], f, seq!['('], a, seq![')'], op, n];
    let s0 = PostfixState { output: seq![], stack: seq![], values: seq![0], is_fn: seq![false], opens_call: false };
    let out5 = seq![f, a, seq!['(', '1', ')']];
    lemma_step_if(funcs);
    lemma_step_name(f, funcs);
    lemma_step_open(f, funcs);
    lemma_step_arg(f, a, funcs);
    lemma_step_close_one(f, a, funcs);
    lemma_step_op(out5, op, funcs);
    lemma_step_number(out5, seq![op], n, funcs);
    assert(postfix_run(tokens, 0, funcs) == Some(s0));
    assert(postfix_run(tokens, 1, funcs) == Some(s0));
    assert(postfix_run(tokens, 2, funcs) is Some);
    assert(postfix_run(tokens, 3, funcs) is Some);
    assert(postfix_run(tokens, 4, funcs) is Some);
    assert(postfix_run(tokens, 5, funcs) is Some);
    assert(postfix_run(tokens, 6, funcs) is Some);
    assert(postfix_run(tokens, 7, funcs) == Some(
        PostfixState { output: out5.push(n), stack: seq![op], values: seq![1], is_fn: seq![false], opens_call: false },
    ));
    assert(seq![op].drop_last() =~= Seq::<Seq<char>>::empty());
    assert(reversed(Seq::<Seq<char>>::empty()) == Seq::<Seq<char>>::empty());
    assert(seq![op].last() == op);
    assert(reversed(seq![op]) =~= seq![op]);
    assert(out5.push(n) + seq![op] =~= seq![f, a, seq!['(', '1', ')'], n, op]);
}


/// The bytecode that compiling writes for the postfix tokens of a
/// comparison of a function without arguments.
#[verifier::rlimit(100)]
proof fn lemma_op_code_zero(f: Seq<char>, op: Seq<char>, v: nat, funcs: Seq<(Seq<char>, Seq<char>)>, id: int)
    requires
        plain_defs(funcs),
        defs_has_name(funcs, f),
        last_id_of(funcs, f, 0, 255) == Some(Some(id)),
        0 <= id < 64,
        v <= u32::MAX,
        comparison_op(op),
    ensures
        crate::types::compile::condition_spec::op_byte(op) matches Some(ob)
            && crate::types::compile::condition_spec::cond_bytes(
            seq![f, seq!['(', '0', ')'], dec_nat(v), op],
            0,
            seq![],
            funcs,
        ) == Some(seq![(id + 64) as u8, 0x84u8] + number_bytes(v) + seq![ob, 0xA1u8]),
{
    lemma_comparison_token_bytes(f, v, funcs, id);
    lemma_op_code(op);
    let ob = crate::types::compile::condition_spec::op_byte(op)->0;
    let i = choose|i: int| 0 <= i < funcs.len() && (#[trigger] funcs[i]).1 == f;
    assert(plain_name(funcs[i].1));
    lemma_comparison_post_plain(f, v);
    let n = dec_nat(v);
    let post = seq![f, seq!['(', '0', ')'], n, op];
    let b0 = seq![(id + 64) as u8];
    let b1 = b0 + seq![0x84u8];
    let b2 = b1 + number_bytes(v);
    let b3 = b2 + seq![ob];
    lemma_cond_bytes_step(post, 0, seq![], funcs, b0);
    assert(Seq::<u8>::empty() + b0 =~= b0);
    lemma_cond_bytes_step(post, 1, b0, funcs, seq![0x84u8]);
    lemma_cond_bytes_step(post, 2, b1, funcs, number_bytes(v));
    lemma_cond_bytes_step(post, 3, b2, funcs, seq![ob]);
    assert(crate::types::compile::condition_spec::cond_bytes(post, 4, b3, funcs) == Some(b3.push(0xA1)));
    assert(b3.push(0xA1) =~= seq![(id + 64) as u8, 0x84u8] + number_bytes(v) + seq![ob, 0xA1u8]);
}

/// The bytecode that compiling writes for the postfix tokens of a
/// comparison of a function of one argument.
#[verifier::rlimit(100)]
proof fn lemma_op_code_one(f: Seq<char>, u: nat, op: Seq<char>, v: nat, funcs: Seq<(Seq<char>, Seq<char>)>, id: int)
    requires
        plain_defs(funcs),
        defs_has_name(funcs, f),
        last_id_of(funcs, f, 0, 255) == Some(Some(id)),
        0 <= id < 64,
        u <= u32::MAX,
        v <= u32::MAX,
        comparison_op(op),
    ensures
        crate::types::compile::condition_spec::op_byte(op) matches Some(ob)
            && crate::types::compile::condition_spec::cond_bytes(
            seq![f, dec_nat(u), seq!['(', '1', ')'], dec_nat(v), op],
            0,
            seq![],
            funcs,
        ) == Some(seq![(id + 64) as u8] + number_bytes(u) + seq![0x85u8] + number_bytes(v) + seq![ob, 0xA1u8]),
{
    lemma_comparison_token_bytes(f, v, funcs, id);
    lemma_comparison_token_bytes(f, u, funcs, id);
    lemma_count_one_bytes(funcs);
    lemma_op_code(op);
    let ob = crate::types::compile::condition_spec::op_byte(op)->0;
    let i = choose|i: int| 0 <= i < funcs.len() && (#[trigger] funcs[i]).1 == f;
    assert(plain_name(funcs[i].1));
    lemma_comparison_post_plain(f, v);
    lemma_comparison_post_plain(f, u);
    let post = seq![f, dec_nat(u), seq!['(', '1', ')'], dec_nat(v), op];
    let b0 = seq![(id + 64) as u8];
    let b1 = b0 + number_bytes(u);
    let b2 = b1 + seq![0x85u8];
    let b3 = b2 + number_bytes(v);
    let b4 = b3 + seq![ob];
    lemma_cond_bytes_step(post, 0, seq![], funcs, b0);
    assert(Seq::<u8>::empty() + b0 =~= b0);
    lemma_cond_bytes_step(post, 1, b0, funcs, number_bytes(u));
    lemma_cond_bytes_step(post, 2, b1, funcs, seq![0x85u8]);
    lemma_cond_bytes_step(post, 3, b2, funcs, number_bytes(v));
    lemma_cond_bytes_step(post, 4, b3, funcs, seq![ob]);
    assert(crate::types::compile::condition_spec::cond_bytes(post, 5, b4, funcs) == Some(b4.push(0xA1)));
    assert(b4.push(0xA1) =~= seq![(id + 64) as u8] + number_bytes(u) + seq![0x85u8] + number_bytes(v) + seq![
        ob,
        0xA1u8,
    ]);
}

/// Running a comparison byte and the end byte on the stack `[call, number]`
/// leaves the postfix text `<number> <call> <op>`.
proof fn lemma_stack_op_end(code: Seq<u8>, pos: nat, call: Seq<char>, n: Seq<char>, op: Seq<char>, funcs: Seq<(Seq<char>, Seq<char>)>)
    requires
        comparison_op(op),
        pos + 2 == code.len(),
        crate::types::compile::condition_spec::op_byte(op) == Some(code[pos as int]),
        code[pos + 1int] == 0xA1u8,
    ensures
        cond_stack(code, pos, seq![call, n], funcs) == Some(seq![n + seq![' '] + call + seq![' '] + op]),
{
    lemma_op_code(op);
    let text = n + seq![' '] + call + seq![' '] + op;
    assert(seq![call, n].subrange(0, 0).push(text) =~= seq![text]);
    assert(cond_stack(code, pos + 2, seq![text], funcs) == Some(seq![text]));
    assert(cond_stack(code, pos + 1, seq![text], funcs) == Some(seq![text]));
}

/// Running the bytecode of a comparison of a function without arguments.
#[verifier::rlimit(60)]
proof fn lemma_op_stack_zero(f: Seq<char>, op: Seq<char>, v: nat, funcs: Seq<(Seq<char>, Seq<char>)>, id: int, ob: u8)
    requires
        0 <= id < 64,
        defs_lookup(funcs, dec_nat(id as nat)) == Some(f),
        v <= u32::MAX,
        comparison_op(op),
        crate::types::compile::condition_spec::op_byte(op) == Some(ob),
    ensures
        cond_stack(seq![(id + 64) as u8, 0x84u8] + number_bytes(v) + seq![ob, 0xA1u8], 0, seq![], funcs) == Some(
            seq![dec_nat(v) + seq![' '] + (f + seq!['(', ')']) + seq![' '] + op],
        ),
{
    let nv = number_bytes(v);
    let code = seq![(id + 64) as u8, 0x84u8] + nv + seq![ob, 0xA1u8];
    let call = f + seq!['(', ')'];
    let n = dec_nat(v);
    let mv: nat = nv.len();
    let d = dec_nat(id as nat);
    let e = Seq::<Seq<char>>::empty();
    assert(code[0] == (id + 64) as u8);
    assert(((id + 64) as u8 - 64) as nat == id as nat);
    assert(e.push(d) =~= seq![d]);
    assert(cond_stack(code, 0, e, funcs) == cond_stack(code, 1, seq![d], funcs));
    assert(code[1] == 0x84u8);
    assert(crate::types::decompile::condition_spec::call_text(f, e) =~= call);
    assert(seq![d].subrange(1, 1) =~= e);
    assert(seq![d].subrange(0, 0).push(call) =~= seq![call]);
    assert(cond_stack(code, 1, seq![d], funcs) == cond_stack(code, 2, seq![call], funcs));
    assert(code.subrange(2, 2 + mv as int) =~= nv);
    lemma_stack_number(code, 2, seq![call], v, funcs);
    assert(seq![call].push(n) =~= seq![call, n]);
    assert(code[2 + mv as int] == ob);
    assert(code[3 + mv as int] == 0xA1u8);
    lemma_stack_op_end(code, (2 + mv) as nat, call, n, op, funcs);
}

/// Running the bytecode of a comparison of a function of one argument.
#[verifier::rlimit(60)]
proof fn lemma_op_stack_one(f: Seq<char>, u: nat, op: Seq<char>, v: nat, funcs: Seq<(Seq<char>, Seq<char>)>, id: int, ob: u8)
    requires
        0 <= id < 64,
        defs_lookup(funcs, dec_nat(id as nat)) == Some(f),
        u <= u32::MAX,
        v <= u32::MAX,
        comparison_op(op),
        crate::types::compile::condition_spec::op_byte(op) == Some(ob),
    ensures
        cond_stack(
            seq![(id + 64) as u8] + number_bytes(u) + seq![0x85u8] + number_bytes(v) + seq![ob, 0xA1u8],
            0,
            seq![],
            funcs,
        ) == Some(seq![dec_nat(v) + seq![' '] + (f + seq!['('] + dec_nat(u) + seq![')']) + seq![' '] + op]),
{
    let nu = number_bytes(u);
    let nv = number_bytes(v);
    let code = seq![(id + 64) as u8] + nu + seq![0x85u8] + nv + seq![ob, 0xA1u8];
    let a = dec_nat(u);
    let n = dec_nat(v);
    let call = f + seq!['('] + a + seq![')'];
    let mu: nat = nu.len();
    let mv: nat = nv.len();
    let d = dec_nat(id as nat);
    let e = Seq::<Seq<char>>::empty();
    assert(code[0] == (id + 64) as u8);
    assert(((id + 64) as u8 - 64) as nat == id as nat);
    assert(e.push(d) =~= seq![d]);
    assert(cond_stack(code, 0, e, funcs) == cond_stack(code, 1, seq![d], funcs));
    assert(code.subrange(1, 1 + mu as int) =~= nu);
    lemma_stack_number(code, 1, seq![d], u, funcs);
    assert(seq![d].push(a) =~= seq![d, a]);
    assert(code[1 + mu as int] == 0x85u8);
    assert(seq![d, a].subrange(1, 2) =~= seq![a]);
    assert(crate::types::decompile::condition_spec::args_text(seq![a], 1) =~= a) by {
        assert(crate::types::decompile::condition_spec::args_text(seq![a], 0) == Seq::<char>::empty());
    }
    assert(crate::types::decompile::condition_spec::call_text(f, seq![a]) =~= call);
    assert(seq![d, a].subrange(0, 0).push(call) =~= seq![call]);
    assert(cond_stack(code, (1 + mu) as nat, seq![d, a], funcs) == cond_stack(code, (2 + mu) as nat, seq![call], funcs));
    assert(code.subrange(2 + mu as int, 2 + mu + mv as int) =~= nv);
    lemma_stack_number(code, (2 + mu) as nat, seq![call], v, funcs);
    assert(seq![call].push(n) =~= seq![call, n]);
    assert(code[2 + mu + mv as int] == ob);
    assert(code[3 + mu + mv as int] == 0xA1u8);
    lemma_stack_op_end(code, (2 + mu + mv) as nat, call, n, op, funcs);
}

/// Printing the postfix text `<number> <call> <op>` in infix form, for a
/// call without spaces that ends in `)`.
#[verifier::rlimit(60)]
pub(crate) proof fn lemma_op_render(call: Seq<char>, op: Seq<char>, v: nat)
    requires
        call.len() > 0,
        call[call.len() - 1] == ')',
        forall|j: int| 0 <= j < call.len() ==> call[j] != ' ',
        comparison_op(op),
    ensures
        ({
            let n = dec_nat(v);
            let text = n + seq![' '] + call + seq![' '] + op;
            let tokens = split_on(text, ' ');
            let node = SpecNode {
                children: seq![SpecNodeType::Value(call), SpecNodeType::Value(n)],
                operator: op,
            };
            &&& text != "1"@
            &&& tokens == seq![n, call, op]
            &&& ast_build(tokens, tokens.len()) == Some(seq![SpecNodeType::Eq(node)])
            &&& render(SpecNodeType::Eq(node)) == Some(call + seq![' '] + op + seq![' '] + n)
        }),
{
    lemma_reveal_words();
    lemma_reveal_ops();
    lemma_op_code(op);
    reveal_strlit("1");
    let n = dec_nat(v);
    let text = n + seq![' '] + call + seq![' '] + op;
    lemma_dec_nat_digits(v);
    assert(text.len() > 1);
    assert forall|j: int| 0 <= j < n.len() implies n[j] != ' ' by {
        assert(is_digit(n[j]));
    }
    lemma_split_absent(n, ' ');
    lemma_split_absent(call, ' ');
    lemma_split_absent(op, ' ');
    lemma_split_at_sep(call, ' ', op);
    assert(text =~= n + seq![' '] + (call + seq![' '] + op));
    lemma_split_at_sep(n, ' ', call + seq![' '] + op);
    let tokens = seq![n, call, op];
    assert(split_on(text, ' ') =~= tokens);
    assert(!is_binary_token(n)) by {
        assert(is_digit(n[0]));
    }
    assert(n != "not"@) by {
        assert(is_digit(n[0]));
    }
    assert(!is_binary_token(call));
    assert(call != "not"@);
    let st1 = seq![SpecNodeType::Value(n)];
    let st2 = seq![SpecNodeType::Value(n), SpecNodeType::Value(call)];
    assert(ast_build(tokens, 0) == Some(Seq::<SpecNodeType>::empty()));
    assert(Seq::<SpecNodeType>::empty().push(SpecNodeType::Value(n)) =~= st1);
    assert(ast_build(tokens, 1) == Some(st1));
    assert(st1.push(SpecNodeType::Value(call)) =~= st2);
    assert(ast_build(tokens, 2) == Some(st2));
    let node = SpecNode {
        children: seq![SpecNodeType::Value(call), SpecNodeType::Value(n)],
        operator: op,
    };
    assert(st2.subrange(0, 0).push(SpecNodeType::Eq(node)) =~= seq![SpecNodeType::Eq(node)]);
    assert(ast_build(tokens, 3) == Some(seq![SpecNodeType::Eq(node)]));
    assert(infix(call, op, n) =~= call + seq![' '] + op + seq![' '] + n);
}


/// Compiling a comparison of a function without arguments.
proof fn lemma_op_compiles_zero(f: Seq<char>, op: Seq<char>, v: nat, funcs: Seq<(Seq<char>, Seq<char>)>, id: int)
    requires
        plain_defs(funcs),
        defs_has_name(funcs, f),
        last_id_of(funcs, f, 0, 255) == Some(Some(id)),
        0 <= id < 64,
        v <= u32::MAX,
        comparison_op(op),
    ensures
        crate::types::compile::condition_spec::op_byte(op) matches Some(ob) && condition_bytes(
            comparison_text(f, seq![], op, dec_nat(v)),
            funcs,
        ) == Some(seq![(id + 64) as u8, 0x84u8] + number_bytes(v) + seq![ob, 0xA1u8]),
{
    let i = choose|i: int| 0 <= i < funcs.len() && (#[trigger] funcs[i]).1 == f;
    assert(plain_name(funcs[i].1));
    let n = dec_nat(v);
    lemma_dec_nat_digits(v);
    law_parse_printed_number(v as int, i64::MIN as int, i64::MAX as int);
    lemma_dec_int_plain(v as int);
    assert(dec_int(v as int) == n);
    lemma_comparison_line_tokens(f, seq![], op, n);
    lemma_op_postfix_zero(f, op, n, funcs);
    lemma_op_code_zero(f, op, v, funcs, id);
}

/// Compiling a comparison of a function of one argument.
proof fn lemma_op_compiles_one(f: Seq<char>, u: nat, op: Seq<char>, v: nat, funcs: Seq<(Seq<char>, Seq<char>)>, id: int)
    requires
        plain_defs(funcs),
        defs_has_name(funcs, f),
        last_id_of(funcs, f, 0, 255) == Some(Some(id)),
        0 <= id < 64,
        u <= u32::MAX,
        v <= u32::MAX,
        comparison_op(op),
    ensures
        crate::types::compile::condition_spec::op_byte(op) matches Some(ob) && condition_bytes(
            comparison_text(f, dec_nat(u), op, dec_nat(v)),
            funcs,
        ) == Some(seq![(id + 64) as u8] + number_bytes(u) + seq![0x85u8] + number_bytes(v) + seq![ob, 0xA1u8]),
{
    let i = choose|i: int| 0 <= i < funcs.len() && (#[trigger] funcs[i]).1 == f;
    assert(plain_name(funcs[i].1));
    lemma_dec_nat_digits(u);
    lemma_dec_nat_digits(v);
    law_parse_printed_number(u as int, i64::MIN as int, i64::MAX as int);
    law_parse_printed_number(v as int, i64::MIN as int, i64::MAX as int);
    lemma_dec_int_plain(u as int);
    lemma_dec_int_plain(v as int);
    assert(dec_int(u as int) == dec_nat(u));
    assert(dec_int(v as int) == dec_nat(v));
    lemma_comparison_line_tokens(f, dec_nat(u), op, dec_nat(v));
    lemma_op_postfix_one(f, dec_nat(u), op, dec_nat(v), funcs);
    lemma_op_code_one(f, u, op, v, funcs, id);
}

/// Decompiling a comparison, given the postfix text that running its
/// bytecode leaves.
proof fn lemma_op_line(code: Seq<u8>, call: Seq<char>, op: Seq<char>, v: nat, funcs: Seq<(Seq<char>, Seq<char>)>)
    requires
        call.len() > 0,
        call[call.len() - 1] == ')',
        forall|j: int| 0 <= j < call.len() ==> call[j] != ' ',
        comparison_op(op),
        cond_stack(code, 0, seq![], funcs) == Some(seq![dec_nat(v) + seq![' '] + call + seq![' '] + op]),
    ensures
        condition_line(code, funcs) == Some("        if "@ + call + seq![' '] + op + seq![' '] + dec_nat(v) + seq![':']),
{
    lemma_op_render(call, op, v);
}

/// A comparison of a function without arguments with a number up to
/// `u32::MAX`, by one of the operators `==`, `!=`, `<=`, `>=`, `<` and `>`,
/// in the form `if<name>()<op><number>:` that compiling reads (spaces are
/// gone by then), decompiles back to `if <name>() <op> <number>:` on an
/// indented line: when every defined function has a plain name, and the id
/// that compiling finds for the name (that of its last definition) is below
/// 64 and gives the name back.
pub proof fn law_comparison_roundtrip(f: Seq<char>, op: Seq<char>, v: nat, funcs: Seq<(Seq<char>, Seq<char>)>)
    requires
        plain_defs(funcs),
        last_id_of(funcs, f, 0, 255) matches Some(Some(id)) && id < 64 && defs_lookup(
            funcs,
            dec_nat(id as nat),
        ) == Some(f),
        comparison_op(op),
        v <= u32::MAX,
    ensures
        condition_bytes(seq!['i', 'f'] + f + seq!['(', ')'] + op + dec_nat(v) + seq![':'], funcs) matches Some(code)
            && condition_line(code, funcs) == Some(
            "        if "@ + f + seq!['(', ')', ' '] + op + seq![' '] + dec_nat(v) + seq![':'],
        ),
{
    lemma_last_id_found(funcs, f, 0, 255);
    let id = last_id_of(funcs, f, 0, 255)->0->0;
    let i = choose|i: int| 0 <= i < funcs.len() && (#[trigger] funcs[i]).1 == f;
    assert(plain_name(funcs[i].1));
    let n = dec_nat(v);
    assert(seq!['i', 'f'] + f + seq!['(', ')'] + op + n + seq![':'] =~= comparison_text(f, seq![], op, n));
    lemma_op_compiles_zero(f, op, v, funcs, id);
    let ob = crate::types::compile::condition_spec::op_byte(op)->0;
    lemma_op_stack_zero(f, op, v, funcs, id, ob);
    let call = f + seq!['(', ')'];
    assert forall|j: int| 0 <= j < call.len() implies call[j] != ' ' by {
        if j < f.len() {
            assert(is_name_char(f[j]));
        }
    }
    lemma_op_line(seq![(id + 64) as u8, 0x84u8] + number_bytes(v) + seq![ob, 0xA1u8], call, op, v, funcs);
    reveal_strlit("        if ");
    assert("        if "@ + call + seq![' '] + op + seq![' '] + n + seq![':'] =~= "        if "@ + f + seq![
        '(',
        ')',
        ' ',
    ] + op + seq![' '] + n + seq![':']);
}

/// A comparison of a function of one number argument with a number, both
/// up to `u32::MAX`, by one of the operators `==`, `!=`, `<=`, `>=`, `<` and
/// `>`, in the form `if<name>(<number>)<op><number>:` that compiling reads
/// (spaces are gone by then), decompiles back to
/// `if <name>(<number>) <op> <number>:` on an indented line: when every
/// defined function has a plain name, and the id that compiling finds for
/// the name (that of its last definition) is below 64 and gives the name
/// back.
pub proof fn law_call_comparison_roundtrip(
    f: Seq<char>,
    u: nat,
    op: Seq<char>,
    v: nat,
    funcs: Seq<(Seq<char>, Seq<char>)>,
)
    requires
        plain_defs(funcs),
        last_id_of(funcs, f, 0, 255) matches Some(Some(id)) && id < 64 && defs_lookup(
            funcs,
            dec_nat(id as nat),
        ) == Some(f),
        comparison_op(op),
        u <= u32::MAX,
        v <= u32::MAX,
    ensures
        condition_bytes(
            seq!['i', 'f'] + f + seq!['('] + dec_nat(u) + seq![')'] + op + dec_nat(v) + seq![':'],
            funcs,
        ) matches Some(code) && condition_line(code, funcs) == Some(
            "        if "@ + f + seq!['('] + dec_nat(u) + seq![')', ' '] + op + seq![' '] + dec_nat(v) + seq![':'],
        ),
{
    lemma_last_id_found(funcs, f, 0, 255);
    let id = last_id_of(funcs, f, 0, 255)->0->0;
    let i = choose|i: int| 0 <= i < funcs.len() && (#[trigger] funcs[i]).1 == f;
    assert(plain_name(funcs[i].1));
    let a = dec_nat(u);
    let n = dec_nat(v);
    assert(seq!['i', 'f'] + f + seq!['('] + a + seq![')'] + op + n + seq![':'] =~= comparison_text(f, a, op, n));
    lemma_op_compiles_one(f, u, op, v, funcs, id);
    let ob = crate::types::compile::condition_spec::op_byte(op)->0;
    lemma_op_stack_one(f, u, op, v, funcs, id, ob);
    let call = f + seq!['('] + a + seq![')'];
    lemma_dec_nat_digits(u);
    assert forall|j: int| 0 <= j < call.len() implies call[j] != ' ' by {
        if j < f.len() {
            assert(call[j] == f[j]);
            assert(is_name_char(f[j]));
        } else if f.len() < j < f.len() + 1 + a.len() {
            assert(call[j] == a[j - f.len() - 1]);
            assert(is_digit(a[j - f.len() - 1]));
        }
    }
    lemma_op_line(
        seq![(id + 64) as u8] + number_bytes(u) + seq![0x85u8] + number_bytes(v) + seq![ob, 0xA1u8],
        call,
        op,
        v,
        funcs,
    );
    reveal_strlit("        if ");
    assert("        if "@ + call + seq![' '] + op + seq![' '] + n + seq![':'] =~= "        if "@ + f + seq!['('] + a
        + seq![')', ' '] + op + seq![' '] + n + seq![':']);
}


/// Whether the renumbering of written ids is sound: every new id given so
/// far is at most the highest one, and no two old ids share a new id.
pub open spec fn renumbering_ok(d: SpecImportantData) -> bool {
    &&& forall|k: u32| #[trigger] d.old_new_id.contains_key(k) ==> d.old_new_id[k] <= d.current_max_id
    &&& forall|k1: u32, k2: u32|
        #[trigger] d.old_new_id.contains_key(k1) && #[trigger] d.old_new_id.contains_key(k2) && k1 != k2
            ==> d.old_new_id[k1] != d.old_new_id[k2]
}

/// Writing an id keeps the renumbering sound: an id already renumbered is
/// written as its new id, and any other one gets a new id above all given so
/// far, which it keeps.
pub proof fn law_new_ids_distinct(id: u32, d: SpecImportantData)
    requires
        renumbering_ok(d),
    ensures
        crate::types::compile::write_spec::spec_new_id(id, d) matches Some((n, d2)) ==> {
            &&& renumbering_ok(d2)
            &&& d2.old_new_id.contains_key(id) && d2.old_new_id[id] == n
            &&& d.old_new_id.contains_key(id) ==> n == d.old_new_id[id]
            &&& !d.old_new_id.contains_key(id) ==> forall|k: u32| #[trigger] d.old_new_id.contains_key(k)
                ==> d.old_new_id[k] < n
            &&& forall|k: u32| #[trigger] d.old_new_id.contains_key(k) ==> d2.old_new_id.contains_key(k)
                && d2.old_new_id[k] == d.old_new_id[k]
        },
{
}

/// Whether the transition bookkeeping of compiling is in step: one recorded
/// target per transition id, and no id twice.
pub open spec fn bookkeeping_ok(c: SpecCompData) -> bool {
    c.state_ref_order.len() == c.transition_ids.len() && c.transition_ids.no_duplicates()
}

/// Making the reference of a compiled transition keeps the bookkeeping in
/// step, and its id is among the recorded transition ids.
pub proof fn law_transition_bookkeeping(t: crate::types::structs::SpecTransition, target: u32, c: SpecCompData)
    requires
        bookkeeping_ok(c),
    ensures
        crate::types::compile::tree_spec::transition_ref(t, target, c) matches Some((r, c2)) ==> bookkeeping_ok(c2)
            && c2.transition_ids.contains(r.id),
{
    match crate::types::compile::tree_spec::transition_ref(t, target, c) {
        Some((r, c2)) => {
            if !c2.transition_ids.contains(r.id) {
                assert(c2.transition_ids[c2.transition_ids.len() - 1] == r.id);
            }
        },
        None => {},
    }
}


} // verus!
