//! Properties of compiling the sections of a script: the event lines after
//! `#PassEvents:` become the pass events of their transition, and those after
//! `#ExitEvents:` become the exit events of their state.
use vstd::prelude::*;
use crate::types::compile::event_spec::event_from_text;
use crate::types::compile::tree_spec::{compile_state, compile_transition, event_ref, new_ref, pass_loop, section_flags, starts_block, state_loop, StateAcc};
use crate::utils::strings::contains_text;
use crate::types::structs::{SpecRefValue, SpecReference};
use crate::utils::important_comp_data::{SpecCompData, next_id_data};
use crate::utils::strings::starts_with;

verus! {

/// Whether the `n` lines from `i` are pass event lines: calls of defined
/// events, none starting a state, a map or a condition.
pub open spec fn pass_lines(lines: Seq<Seq<char>>, i: nat, n: nat, defs: Seq<(Seq<char>, Seq<char>)>) -> bool {
    &&& i + n <= lines.len()
    &&& forall|k: int| i <= k < i + n ==> !starts_block(#[trigger] lines[k]) && !starts_with(lines[k], "if"@)
        && event_from_text(lines[k], defs) is Some
}

/// Whether the pass events of lines end at line `j`: the text ends there, or
/// a state, a map or a condition starts.
pub open spec fn pass_end(lines: Seq<Seq<char>>, j: nat) -> bool {
    j >= lines.len() || starts_block(lines[j as int]) || starts_with(lines[j as int], "if"@)
}

/// The reference of the `k`-th pass event from line `i`, given the next id
/// `first`.
pub open spec fn pass_ref(lines: Seq<Seq<char>>, i: nat, k: int, first: int, defs: Seq<(Seq<char>, Seq<char>)>) -> SpecReference {
    new_ref(7, (first + k) as u32, Some(SpecRefValue::Event(event_from_text(lines[i + k], defs)->0)))
}

/// Compiling the pass event lines from `i`: each becomes, in order, a new
/// reference of type `7` that holds its event under the next id.
pub proof fn law_pass_events(lines: Seq<Seq<char>>, i: nat, n: nat, c: SpecCompData, refs: Seq<SpecReference>)
    requires
        pass_lines(lines, i, n, c.event_defs),
        pass_end(lines, i + n),
        c.highest_id + n <= u32::MAX,
    ensures
        pass_loop(lines, i, c, refs) matches Some((r2, j, c2)) && j == i + n && c2.highest_id == c.highest_id + n
            && c2.event_defs == c.event_defs && c2.func_defs == c.func_defs && c2.transition_ids == c.transition_ids
            && r2.len() == refs.len() + n && r2.take(refs.len() as int) == refs && forall|k: int| 0 <= k < n
            ==> #[trigger] r2[refs.len() + k] == pass_ref(lines, i, k, c.highest_id + 1, c.event_defs),
    decreases n,
{
    if n == 0 {
        assert(refs.take(refs.len() as int) =~= refs);
    } else {
        let line = lines[i as int];
        assert(!starts_block(line) && !starts_with(line, "if"@) && event_from_text(line, c.event_defs) is Some);
        let e = event_from_text(line, c.event_defs)->0;
        let id = (c.highest_id + 1) as u32;
        let refs1 = refs.push(new_ref(7, id, Some(SpecRefValue::Event(e))));
        let c1 = next_id_data(c);
        assert(pass_lines(lines, i + 1, (n - 1) as nat, c1.event_defs)) by {
            assert forall|k: int| i + 1 <= k < i + 1 + (n - 1) implies !starts_block(#[trigger] lines[k]) && !starts_with(
                lines[k],
                "if"@,
            ) && event_from_text(lines[k], c1.event_defs) is Some by {
                assert(i <= k < i + n);
            }
        }
        law_pass_events(lines, i + 1, (n - 1) as nat, c1, refs1);
        let res = pass_loop(lines, i + 1, c1, refs1)->0;
        let r2 = res.0;
        assert(pass_loop(lines, i, c, refs) == pass_loop(lines, i + 1, c1, refs1));
        assert(r2.take(refs1.len() as int) == refs1);
        assert(r2.take(refs.len() as int) =~= refs) by {
            assert forall|k: int| 0 <= k < refs.len() implies r2[k] == refs[k] by {
                assert(r2.take(refs1.len() as int)[k] == r2[k]);
                assert(refs1[k] == refs[k]);
            }
        }
        assert forall|k: int| 0 <= k < n implies #[trigger] r2[refs.len() + k] == pass_ref(
            lines,
            i,
            k,
            c.highest_id + 1,
            c.event_defs,
        ) by {
            if k == 0 {
                assert(r2.take(refs1.len() as int)[refs.len() as int] == r2[refs.len() as int]);
                assert(refs1[refs.len() as int] == new_ref(7, id, Some(SpecRefValue::Event(e))));
            } else {
                assert(r2[refs1.len() + (k - 1)] == pass_ref(lines, i + 1, k - 1, c1.highest_id + 1, c1.event_defs));
                assert(lines[(i + 1) + (k - 1)] == lines[i + k]);
            }
        }
    }
}


/// Compiling a transition whose target-state line is followed by a
/// `#PassEvents:` line and `n` pass event lines: its pass events are those
/// lines' events, in order, each a new reference of type `7` under the next
/// id, and compiling goes on after them. It succeeds when the target line
/// names a state index and the condition compiles.
pub proof fn law_transition_pass_events(line: Seq<char>, lines: Seq<Seq<char>>, i: nat, n: nat, c: SpecCompData)
    requires
        i + 1 < lines.len(),
        lines[i as int + 1] == "#PassEvents:"@,
        pass_lines(lines, i + 2, n, c.event_defs),
        pass_end(lines, i + 2 + n),
        c.highest_id + n <= u32::MAX,
    ensures
        compile_transition(line, lines, i, c) matches Some((t, _, j, _)) ==> {
            &&& j == i + 2 + n
            &&& t.pass_events.references.len() == n
            &&& t.pass_events.ref_count == n
            &&& forall|k: int| 0 <= k < n ==> #[trigger] t.pass_events.references[k] == pass_ref(
                lines,
                i + 2,
                k,
                c.highest_id + 1,
                c.event_defs,
            )
        },
        (crate::utils::strings::parse_in(
            crate::utils::strings::replace_all(crate::utils::strings::replace_all(lines[i as int], "State_"@, seq![]), "()"@, seq![]),
            0,
            u32::MAX as int,
        ) is Some && crate::types::compile::condition_spec::condition_bytes(line, c.func_defs) is Some)
            ==> compile_transition(line, lines, i, c) is Some,
{
    law_pass_events(lines, i + 2, n, c, seq![]);
    let res = pass_loop(lines, i + 2, c, seq![])->0;
    let r2 = res.0;
    assert forall|k: int| 0 <= k < n implies #[trigger] r2[k] == pass_ref(lines, i + 2, k, c.highest_id + 1, c.event_defs) by {
        assert(r2[0 + k] == pass_ref(lines, i + 2, k, c.highest_id + 1, c.event_defs));
    }
}


/// Whether the `n` lines from `i` are event lines of a state section: calls
/// of defined events, none starting a state or a map.
pub open spec fn event_lines(lines: Seq<Seq<char>>, i: nat, n: nat, defs: Seq<(Seq<char>, Seq<char>)>) -> bool {
    &&& i + n <= lines.len()
    &&& forall|k: int| i <= k < i + n ==> !starts_block(#[trigger] lines[k]) && contains_text(lines[k], "("@)
        && event_from_text(lines[k], defs) is Some
}

/// Whether the reference `r` is one that compiling makes for the event line
/// `line`: of type `7`, holding the line's event, or nothing when an equal
/// event was compiled before.
pub open spec fn event_ref_of(r: SpecReference, line: Seq<char>, defs: Seq<(Seq<char>, Seq<char>)>) -> bool {
    r.ref_type == 7 && (r.value is None || r.value == Some(Box::new(SpecRefValue::Event(event_from_text(line, defs)->0))))
}

/// The section titles hold no parenthesis.
proof fn lemma_titles()
    ensures
        !contains_text("#EntryEvents:"@, "("@),
        !contains_text("#ExitEvents:"@, "("@),
        !contains_text("#Transitions:"@, "("@),
        !contains_text("#ExitEvents:"@, "if"@),
        "#ExitEvents:"@ != "#EntryEvents:"@,
        !starts_block("#ExitEvents:"@),
{
    reveal_strlit("#EntryEvents:");
    reveal_strlit("#ExitEvents:");
    reveal_strlit("#Transitions:");
    reveal_strlit("(");
    reveal_strlit("if");
    reveal_strlit("defState_");
    reveal_strlit("defMap_");
    assert("("@ =~= seq!['(']);
    crate::laws::lemma_no_char_not_contained("#EntryEvents:"@, '(');
    crate::laws::lemma_no_char_not_contained("#ExitEvents:"@, '(');
    crate::laws::lemma_no_char_not_contained("#Transitions:"@, '(');
    assert(!contains_text("#ExitEvents:"@, "if"@)) by {
        assert forall|k: int| !crate::utils::strings::occurs_at("#ExitEvents:"@, "if"@, k) by {
            if crate::utils::strings::occurs_at("#ExitEvents:"@, "if"@, k) {
                assert("#ExitEvents:"@.subrange(k, k + 2)[1] == "#ExitEvents:"@[k + 1]);
            }
        }
    }
    assert("#ExitEvents:"@[2] != "#EntryEvents:"@[2]);
    assert(!crate::utils::strings::occurs_at("#ExitEvents:"@, "defState_"@, 0)) by {
        assert("#ExitEvents:"@.subrange(0, 9)[0] == '#');
    }
    assert(!crate::utils::strings::occurs_at("#ExitEvents:"@, "defMap_"@, 0)) by {
        assert("#ExitEvents:"@.subrange(0, 7)[0] == '#');
    }
}

/// The entry-events title holds neither `if` nor a state or map start.
proof fn lemma_entry_title()
    ensures
        !contains_text("#EntryEvents:"@, "if"@),
        !starts_block("#EntryEvents:"@),
{
    reveal_strlit("#EntryEvents:");
    reveal_strlit("if");
    reveal_strlit("defState_");
    reveal_strlit("defMap_");
    assert forall|k: int| !crate::utils::strings::occurs_at("#EntryEvents:"@, "if"@, k) by {
        if crate::utils::strings::occurs_at("#EntryEvents:"@, "if"@, k) {
            assert("#EntryEvents:"@.subrange(k, k + 2)[1] == "#EntryEvents:"@[k + 1]);
        }
    }
    assert(!crate::utils::strings::occurs_at("#EntryEvents:"@, "defState_"@, 0)) by {
        assert("#EntryEvents:"@.subrange(0, 9)[0] == '#');
    }
    assert(!crate::utils::strings::occurs_at("#EntryEvents:"@, "defMap_"@, 0)) by {
        assert("#EntryEvents:"@.subrange(0, 7)[0] == '#');
    }
}

/// The key under which compiling shares an event: its id and the bytes of
/// its arguments.
pub open spec fn event_key(e: crate::types::structs::SpecEvent) -> (u32, Seq<Seq<u8>>) {
    (e.event_id, match e.arg_buffers {
        Some(b) => b.map_values(|x: crate::types::structs::SpecBuffer| x.data),
        None => seq![],
    })
}

/// The key of the event of a line.
pub open spec fn line_key(line: Seq<char>, defs: Seq<(Seq<char>, Seq<char>)>) -> (u32, Seq<Seq<u8>>) {
    event_key(event_from_text(line, defs)->0)
}

/// Whether the table of compiled events holds the key `key`.
pub open spec fn key_known(list: Seq<(u32, Seq<Seq<u8>>, u32)>, key: (u32, Seq<Seq<u8>>)) -> bool {
    exists|j: int| 0 <= j < list.len() && (#[trigger] list[j]).0 == key.0 && list[j].1 == key.1
}

/// Looking an event up finds nothing exactly when its key is not in the
/// table.
proof fn lemma_find_event_known(list: Seq<(u32, Seq<Seq<u8>>, u32)>, ev: u32, ds: Seq<Seq<u8>>)
    ensures
        crate::types::compile::tree_spec::find_event(list, ev, ds) is None <==> !key_known(list, (ev, ds)),
    decreases list.len(),
{
    if list.len() > 0 {
        lemma_find_event_known(list.drop_first(), ev, ds);
        if list[0].0 == ev && list[0].1 == ds {
        } else {
            if key_known(list, (ev, ds)) {
                let j = choose|j: int| 0 <= j < list.len() && (#[trigger] list[j]).0 == ev && list[j].1 == ds;
                assert(j > 0);
                assert(list.drop_first()[j - 1] == list[j]);
            }
            if key_known(list.drop_first(), (ev, ds)) {
                let j = choose|j: int| 0 <= j < list.drop_first().len() && (#[trigger] list.drop_first()[j]).0 == ev
                    && list.drop_first()[j].1 == ds;
                assert(list[j + 1] == list.drop_first()[j]);
            }
        }
    }
}

/// Making an event's reference: it holds the event exactly when its key is
/// new, and the key is known afterwards.
proof fn lemma_event_ref_key(e: crate::types::structs::SpecEvent, c: SpecCompData)
    requires
        c.highest_id < u32::MAX,
    ensures
        event_ref(e, c) matches Some((r, c2)) && (r.value is Some <==> !key_known(c.event_ids, event_key(e)))
            && forall|x: (u32, Seq<Seq<u8>>)| key_known(c2.event_ids, x) <==> (key_known(c.event_ids, x) || x == event_key(e)),
{
    let key = event_key(e);
    lemma_find_event_known(c.event_ids, key.0, key.1);
    let (r, c2) = event_ref(e, c)->0;
    assert forall|x: (u32, Seq<Seq<u8>>)| key_known(c2.event_ids, x) <==> (key_known(c.event_ids, x) || x == key) by {
        if r.value is Some {
            let n = c.event_ids.len() as int;
            assert(c2.event_ids == c.event_ids.push((key.0, key.1, c2.highest_id)));
            if key_known(c2.event_ids, x) {
                let j = choose|j: int| 0 <= j < c2.event_ids.len() && (#[trigger] c2.event_ids[j]).0 == x.0 && c2.event_ids[j].1 == x.1;
                if j < n {
                    assert(c.event_ids[j] == c2.event_ids[j]);
                }
            }
            if key_known(c.event_ids, x) {
                let j = choose|j: int| 0 <= j < c.event_ids.len() && (#[trigger] c.event_ids[j]).0 == x.0 && c.event_ids[j].1 == x.1;
                assert(c2.event_ids[j] == c.event_ids[j]);
            }
            if x == key {
                assert(c2.event_ids[n].0 == x.0 && c2.event_ids[n].1 == x.1);
            }
        }
    }
}

/// The first-use condition of the `k`-th line from `i`, seen from the next
/// line, once the key of line `i` is known.
proof fn lemma_shift_keys(lines: Seq<Seq<char>>, i: nat, k: int, c: SpecCompData, c2: SpecCompData)
    requires
        1 <= k,
        c2.event_defs == c.event_defs,
        forall|x: (u32, Seq<Seq<u8>>)| key_known(c2.event_ids, x) <==> (key_known(c.event_ids, x) || x == line_key(
            lines[i as int],
            c.event_defs,
        )),
    ensures
        (!key_known(c2.event_ids, line_key(lines[i + k], c.event_defs)) && forall|j: int| 0 <= j < k - 1 ==> line_key(
            #[trigger] lines[(i + 1) + j],
            c2.event_defs,
        ) != line_key(lines[i + k], c.event_defs)) <==> (!key_known(c.event_ids, line_key(lines[i + k], c.event_defs))
            && forall|j: int| 0 <= j < k ==> line_key(#[trigger] lines[i + j], c.event_defs) != line_key(
            lines[i + k],
            c.event_defs,
        )),
{
    let key = line_key(lines[i + k], c.event_defs);
    assert(lines[i as int + 0] == lines[i as int]);
    if forall|j: int| 0 <= j < k - 1 ==> line_key(#[trigger] lines[(i + 1) + j], c2.event_defs) != key {
        assert forall|j: int| 1 <= j < k implies line_key(#[trigger] lines[i + j], c.event_defs) != key by {
            assert(lines[(i + 1) + (j - 1)] == lines[i + j]);
        }
    }
    if forall|j: int| 0 <= j < k ==> line_key(#[trigger] lines[i + j], c.event_defs) != key {
        assert forall|j: int| 0 <= j < k - 1 implies line_key(#[trigger] lines[(i + 1) + j], c2.event_defs) != key by {
            assert(lines[(i + 1) + j] == lines[i + (j + 1)]);
        }
    }
}

/// A state body ends at the end of the text or at a state or map line.
proof fn lemma_body_end(lines: Seq<Seq<char>>, i: nat, c: SpecCompData, acc: StateAcc)
    requires
        i >= lines.len() || starts_block(lines[i as int]),
    ensures
        state_loop(lines, i, c, acc) == Some((acc, i, c)),
{
    if i < lines.len() {
        let line = lines[i as int];
        assert(section_flags(acc, line) == acc) by {
            reveal_strlit("#EntryEvents:");
            reveal_strlit("#ExitEvents:");
            reveal_strlit("#Transitions:");
            reveal_strlit("defState_");
            reveal_strlit("defMap_");
            if line == "#EntryEvents:"@ || line == "#ExitEvents:"@ || line == "#Transitions:"@ {
                assert(line[0] == '#');
                if starts_with(line, "defState_"@) {
                    assert(line.subrange(0, 9)[0] == line[0]);
                } else {
                    assert(starts_with(line, "defMap_"@));
                    assert(line.subrange(0, 7)[0] == line[0]);
                }
            }
        }
    }
}

/// One event line of an exit-event section.
proof fn lemma_exit_step(lines: Seq<Seq<char>>, i: nat, c: SpecCompData, acc: StateAcc)
    requires
        acc.exit && !acc.entry && !acc.trans,
        i < lines.len(),
        !starts_block(lines[i as int]),
        contains_text(lines[i as int], "("@),
        event_from_text(lines[i as int], c.event_defs) is Some,
        c.highest_id < u32::MAX,
    ensures
        event_ref(event_from_text(lines[i as int], c.event_defs)->0, c) matches Some((r, c2)) && event_ref_of(
            r,
            lines[i as int],
            c.event_defs,
        ) && c2.event_defs == c.event_defs && c2.highest_id <= c.highest_id + 1 && state_loop(lines, i, c, acc)
            == state_loop(lines, i + 1, c2, StateAcc { exit_events: acc.exit_events.push(r), ..acc })
            && (r.value is Some <==> !key_known(c.event_ids, line_key(lines[i as int], c.event_defs)))
            && forall|x: (u32, Seq<Seq<u8>>)| key_known(c2.event_ids, x) <==> (key_known(c.event_ids, x) || x == line_key(
            lines[i as int],
            c.event_defs,
        )),
{
    let line = lines[i as int];
    lemma_titles();
    assert(section_flags(acc, line) == acc);
    lemma_event_ref_key(event_from_text(line, c.event_defs)->0, c);
}

/// Inside an exit-event section, event lines become exit events in order.
#[verifier::rlimit(80)]
proof fn lemma_exit_lines(lines: Seq<Seq<char>>, i: nat, n: nat, c: SpecCompData, acc: StateAcc)
    requires
        acc.exit && !acc.entry && !acc.trans,
        event_lines(lines, i, n, c.event_defs),
        i + n >= lines.len() || starts_block(lines[(i + n) as int]),
        c.highest_id + n <= u32::MAX,
    ensures
        state_loop(lines, i, c, acc) matches Some((acc2, j, c2)) && j == i + n && acc2.entry_events == acc.entry_events
            && acc2.transitions == acc.transitions && acc2.exit_events.len() == acc.exit_events.len() + n
            && acc2.exit_events.take(acc.exit_events.len() as int) == acc.exit_events && forall|k: int| 0 <= k < n
            ==> event_ref_of(#[trigger] acc2.exit_events[acc.exit_events.len() + k], lines[i + k], c.event_defs)
            && (acc2.exit_events[acc.exit_events.len() + k].value is Some <==> (!key_known(
            c.event_ids,
            line_key(lines[i + k], c.event_defs),
        ) && forall|j: int| 0 <= j < k ==> line_key(#[trigger] lines[i + j], c.event_defs) != line_key(lines[i + k], c.event_defs))),
    decreases n,
{
    if n == 0 {
        assert(acc.exit_events.take(acc.exit_events.len() as int) =~= acc.exit_events);
        lemma_body_end(lines, i, c, acc);
    } else {
        lemma_exit_step(lines, i, c, acc);
        let pair = event_ref(event_from_text(lines[i as int], c.event_defs)->0, c)->0;
        let r = pair.0;
        let c2 = pair.1;
        let acc2 = StateAcc { exit_events: acc.exit_events.push(r), ..acc };
        assert(event_lines(lines, i + 1, (n - 1) as nat, c2.event_defs)) by {
            assert forall|k: int| i + 1 <= k < i + 1 + (n - 1) implies !starts_block(#[trigger] lines[k]) && contains_text(
                lines[k],
                "("@,
            ) && event_from_text(lines[k], c2.event_defs) is Some by {
                assert(i <= k < i + n);
            }
        }
        lemma_exit_lines(lines, i + 1, (n - 1) as nat, c2, acc2);
        let res = state_loop(lines, i + 1, c2, acc2)->0;
        let acc3 = res.0;
        let m = acc.exit_events.len();
        assert(acc3.exit_events.take(m as int + 1) == acc2.exit_events);
        assert(acc3.exit_events.take(m as int) =~= acc.exit_events) by {
            assert forall|k: int| 0 <= k < m implies acc3.exit_events[k] == acc.exit_events[k] by {
                assert(acc3.exit_events.take(m as int + 1)[k] == acc3.exit_events[k]);
            }
        }
        assert forall|k: int| 0 <= k < n implies event_ref_of(#[trigger] acc3.exit_events[m + k], lines[i + k], c.event_defs)
            && (acc3.exit_events[m + k].value is Some <==> (!key_known(c.event_ids, line_key(lines[i + k], c.event_defs))
            && forall|j: int| 0 <= j < k ==> line_key(#[trigger] lines[i + j], c.event_defs) != line_key(lines[i + k], c.event_defs))) by {
            if k == 0 {
                assert(acc3.exit_events.take(m as int + 1)[m as int] == acc3.exit_events[m as int]);
                assert(acc2.exit_events[m as int] == r);
            } else {
                let kk = k - 1;
                assert(event_ref_of(acc3.exit_events[(m + 1) + kk], lines[(i + 1) + kk], c2.event_defs));
                assert(lines[(i + 1) + kk] == lines[i + k]);
                lemma_shift_keys(lines, i, k, c, c2);
            }
        }
    }
}

/// Compiling a state body at an `#ExitEvents:` line followed by `n` event
/// lines (up to the end of the text or the next state or map): each line
/// becomes, in order, an exit event of type `7` that holds the line's event
/// exactly when no equal event (same id and arguments) was compiled before,
/// in the table or on an earlier line, and none becomes an entry event or a
/// transition.
pub proof fn law_exit_events(lines: Seq<Seq<char>>, i: nat, n: nat, c: SpecCompData, acc: StateAcc)
    requires
        i < lines.len(),
        lines[i as int] == "#ExitEvents:"@,
        event_lines(lines, i + 1, n, c.event_defs),
        i + 1 + n >= lines.len() || starts_block(lines[(i + 1 + n) as int]),
        c.highest_id + n <= u32::MAX,
    ensures
        state_loop(lines, i, c, acc) matches Some((acc2, j, _)) && j == i + 1 + n && acc2.entry_events == acc.entry_events
            && acc2.transitions == acc.transitions && acc2.exit_events.len() == acc.exit_events.len() + n
            && acc2.exit_events.take(acc.exit_events.len() as int) == acc.exit_events && forall|k: int| 0 <= k < n
            ==> event_ref_of(#[trigger] acc2.exit_events[acc.exit_events.len() + k], lines[i + 1 + k], c.event_defs)
            && (acc2.exit_events[acc.exit_events.len() + k].value is Some <==> (!key_known(
            c.event_ids,
            line_key(lines[i + 1 + k], c.event_defs),
        ) && forall|j: int| 0 <= j < k ==> line_key(#[trigger] lines[i + 1 + j], c.event_defs) != line_key(
            lines[i + 1 + k],
            c.event_defs,
        ))),
{
    lemma_titles();
    let acc1 = section_flags(acc, "#ExitEvents:"@);
    assert(acc1 == StateAcc { entry: false, exit: true, trans: false, ..acc });
    assert(state_loop(lines, i, c, acc) == state_loop(lines, i + 1, c, acc1));
    lemma_exit_lines(lines, i + 1, n, c, acc1);
}


/// One event line of an entry-event section.
proof fn lemma_entry_step(lines: Seq<Seq<char>>, i: nat, c: SpecCompData, acc: StateAcc)
    requires
        acc.entry && !acc.exit && !acc.trans,
        i < lines.len(),
        !starts_block(lines[i as int]),
        contains_text(lines[i as int], "("@),
        event_from_text(lines[i as int], c.event_defs) is Some,
        c.highest_id < u32::MAX,
    ensures
        event_ref(event_from_text(lines[i as int], c.event_defs)->0, c) matches Some((r, c2)) && event_ref_of(
            r,
            lines[i as int],
            c.event_defs,
        ) && c2.event_defs == c.event_defs && c2.highest_id <= c.highest_id + 1 && state_loop(lines, i, c, acc)
            == state_loop(lines, i + 1, c2, StateAcc { entry_events: acc.entry_events.push(r), ..acc })
            && (r.value is Some <==> !key_known(c.event_ids, line_key(lines[i as int], c.event_defs)))
            && forall|x: (u32, Seq<Seq<u8>>)| key_known(c2.event_ids, x) <==> (key_known(c.event_ids, x) || x == line_key(
            lines[i as int],
            c.event_defs,
        )),
{
    let line = lines[i as int];
    lemma_titles();
    assert(section_flags(acc, line) == acc);
    lemma_event_ref_key(event_from_text(line, c.event_defs)->0, c);
}

/// Inside an entry-event section, event lines become entry events in order.
#[verifier::rlimit(80)]
proof fn lemma_entry_lines(lines: Seq<Seq<char>>, i: nat, n: nat, c: SpecCompData, acc: StateAcc)
    requires
        acc.entry && !acc.exit && !acc.trans,
        event_lines(lines, i, n, c.event_defs),
        i + n >= lines.len() || starts_block(lines[(i + n) as int]),
        c.highest_id + n <= u32::MAX,
    ensures
        state_loop(lines, i, c, acc) matches Some((acc2, j, c2)) && j == i + n && acc2.exit_events == acc.exit_events
            && acc2.transitions == acc.transitions && acc2.entry_events.len() == acc.entry_events.len() + n
            && acc2.entry_events.take(acc.entry_events.len() as int) == acc.entry_events && forall|k: int| 0 <= k < n
            ==> event_ref_of(#[trigger] acc2.entry_events[acc.entry_events.len() + k], lines[i + k], c.event_defs)
            && (acc2.entry_events[acc.entry_events.len() + k].value is Some <==> (!key_known(
            c.event_ids,
            line_key(lines[i + k], c.event_defs),
        ) && forall|j: int| 0 <= j < k ==> line_key(#[trigger] lines[i + j], c.event_defs) != line_key(lines[i + k], c.event_defs))),
    decreases n,
{
    if n == 0 {
        assert(acc.entry_events.take(acc.entry_events.len() as int) =~= acc.entry_events);
        lemma_body_end(lines, i, c, acc);
    } else {
        lemma_entry_step(lines, i, c, acc);
        let pair = event_ref(event_from_text(lines[i as int], c.event_defs)->0, c)->0;
        let r = pair.0;
        let c2 = pair.1;
        let acc2 = StateAcc { entry_events: acc.entry_events.push(r), ..acc };
        assert(event_lines(lines, i + 1, (n - 1) as nat, c2.event_defs)) by {
            assert forall|k: int| i + 1 <= k < i + 1 + (n - 1) implies !starts_block(#[trigger] lines[k]) && contains_text(
                lines[k],
                "("@,
            ) && event_from_text(lines[k], c2.event_defs) is Some by {
                assert(i <= k < i + n);
            }
        }
        lemma_entry_lines(lines, i + 1, (n - 1) as nat, c2, acc2);
        let res = state_loop(lines, i + 1, c2, acc2)->0;
        let acc3 = res.0;
        let m = acc.entry_events.len();
        assert(acc3.entry_events.take(m as int + 1) == acc2.entry_events);
        assert(acc3.entry_events.take(m as int) =~= acc.entry_events) by {
            assert forall|k: int| 0 <= k < m implies acc3.entry_events[k] == acc.entry_events[k] by {
                assert(acc3.entry_events.take(m as int + 1)[k] == acc3.entry_events[k]);
            }
        }
        assert forall|k: int| 0 <= k < n implies event_ref_of(#[trigger] acc3.entry_events[m + k], lines[i + k], c.event_defs)
            && (acc3.entry_events[m + k].value is Some <==> (!key_known(c.event_ids, line_key(lines[i + k], c.event_defs))
            && forall|j: int| 0 <= j < k ==> line_key(#[trigger] lines[i + j], c.event_defs) != line_key(lines[i + k], c.event_defs))) by {
            if k == 0 {
                assert(acc3.entry_events.take(m as int + 1)[m as int] == acc3.entry_events[m as int]);
                assert(acc2.entry_events[m as int] == r);
            } else {
                let kk = k - 1;
                assert(event_ref_of(acc3.entry_events[(m + 1) + kk], lines[(i + 1) + kk], c2.event_defs));
                assert(lines[(i + 1) + kk] == lines[i + k]);
                lemma_shift_keys(lines, i, k, c, c2);
            }
        }
    }
}

/// Compiling a state body at an `#EntryEvents:` line followed by `n` event
/// lines (up to the end of the text or the next state or map): each line
/// becomes, in order, an entry event of type `7` that holds the line's event
/// exactly when no equal event (same id and arguments) was compiled before,
/// in the table or on an earlier line, and none becomes an exit event or a
/// transition.
pub proof fn law_entry_events(lines: Seq<Seq<char>>, i: nat, n: nat, c: SpecCompData, acc: StateAcc)
    requires
        i < lines.len(),
        lines[i as int] == "#EntryEvents:"@,
        event_lines(lines, i + 1, n, c.event_defs),
        i + 1 + n >= lines.len() || starts_block(lines[(i + 1 + n) as int]),
        c.highest_id + n <= u32::MAX,
    ensures
        state_loop(lines, i, c, acc) matches Some((acc2, j, _)) && j == i + 1 + n && acc2.exit_events == acc.exit_events
            && acc2.transitions == acc.transitions && acc2.entry_events.len() == acc.entry_events.len() + n
            && acc2.entry_events.take(acc.entry_events.len() as int) == acc.entry_events && forall|k: int| 0 <= k < n
            ==> event_ref_of(#[trigger] acc2.entry_events[acc.entry_events.len() + k], lines[i + 1 + k], c.event_defs)
            && (acc2.entry_events[acc.entry_events.len() + k].value is Some <==> (!key_known(
            c.event_ids,
            line_key(lines[i + 1 + k], c.event_defs),
        ) && forall|j: int| 0 <= j < k ==> line_key(#[trigger] lines[i + 1 + j], c.event_defs) != line_key(
            lines[i + 1 + k],
            c.event_defs,
        ))),
{
    lemma_titles();
    lemma_entry_title();
    let acc1 = section_flags(acc, "#EntryEvents:"@);
    assert(acc1 == StateAcc { entry: true, exit: false, trans: false, ..acc });
    assert(state_loop(lines, i, c, acc) == state_loop(lines, i + 1, c, acc1));
    lemma_entry_lines(lines, i + 1, n, c, acc1);
}


/// Compiling a state whose body is an `#ExitEvents:` line and `n` event
/// lines (up to the end of the text or the next state or map): its exit
/// events are those lines' events in order, and it has no entry events and
/// no transitions.
pub proof fn law_state_exit_events(lines: Seq<Seq<char>>, i: nat, n: nat, state_idx: u32, c: SpecCompData)
    requires
        i < lines.len(),
        lines[i as int] == "#ExitEvents:"@,
        event_lines(lines, i + 1, n, c.event_defs),
        i + 1 + n >= lines.len() || starts_block(lines[(i + 1 + n) as int]),
        c.highest_id + n <= u32::MAX,
    ensures
        compile_state(lines, i, state_idx, c) matches Some((st, j, _)) && j == i + 1 + n
            && st.entry_events.references.len() == 0 && st.transitions.references.len() == 0
            && st.exit_events.references.len() == n && forall|k: int| 0 <= k < n ==> event_ref_of(
            #[trigger] st.exit_events.references[k],
            lines[i + 1 + k],
            c.event_defs,
        ),
{
    let acc0 = StateAcc {
        entry: false,
        exit: false,
        trans: false,
        transitions: seq![],
        entry_events: seq![],
        exit_events: seq![],
    };
    law_exit_events(lines, i, n, c, acc0);
    let res = state_loop(lines, i, c, acc0)->0;
    let acc2 = res.0;
    assert forall|k: int| 0 <= k < n implies event_ref_of(#[trigger] acc2.exit_events[k], lines[i + 1 + k], c.event_defs) by {
        assert(event_ref_of(acc2.exit_events[0 + k], lines[i + 1 + k], c.event_defs));
    }
}

} // verus!
