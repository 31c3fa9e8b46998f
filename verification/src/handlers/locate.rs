//! Finding a phone: the queue of commands for it.

use crate::forms::{field_or, FormFields};
use crate::models::{CommandResultRequest, Device, DeviceCommand, PendingCommand};
use crate::numbers::{i64_text, number_text};
use crate::order::{all_views, lemma_filter_members, lemma_text_trichotomy, less_text, text_less};
use crate::text::{opt_view, same_text, trim, trimmed};
use vstd::prelude::*;

verus! {

/// A command as a value.
pub struct CommandView {
    pub id: int,
    pub device_id: int,
    pub command: Seq<char>,
    pub requested_at: Seq<char>,
    pub delivered_at: Option<Seq<char>>,
    pub acknowledged_at: Option<Seq<char>>,
    pub result: Option<Seq<char>>,
}

impl View for DeviceCommand {
    type V = CommandView;

    open spec fn view(&self) -> CommandView {
        CommandView {
            id: self.id as int,
            device_id: self.device_id as int,
            command: self.command@,
            requested_at: self.requested_at@,
            delivered_at: opt_view(self.delivered_at),
            acknowledged_at: opt_view(self.acknowledged_at),
            result: opt_view(self.result),
        }
    }
}

/// The command waits to be handed to a phone.
pub open spec fn waits(c: CommandView, device_id: int) -> bool {
    c.device_id == device_id && c.delivered_at is None
}

/// A command that was just asked for.
pub open spec fn fresh(
    id: int,
    device_id: int,
    command: Seq<char>,
    now: Seq<char>,
) -> CommandView {
    CommandView {
        id,
        device_id,
        command,
        requested_at: now,
        delivered_at: None,
        acknowledged_at: None,
        result: None,
    }
}

/// The queue once a command was asked for: it takes the place of whatever
/// waits for that phone.
pub open spec fn queued(s: Seq<CommandView>, c: CommandView) -> Seq<CommandView> {
    s.filter(|other: CommandView| !waits(other, c.device_id)).push(c)
}

/// Asks for a command. What still waits for the phone is dropped: the last
/// action wins.
pub fn queue_command(
    commands: &mut Vec<DeviceCommand>,
    id: i64,
    device_id: i64,
    command: &str,
    now: &str,
)
    ensures
        all_views(final(commands)@) == queued(
            all_views(old(commands)@),
            fresh(id as int, device_id as int, command@, now@),
        ),
{
    let ghost all = all_views(commands@);
    let ghost given = commands@;
    let ghost pred = |other: CommandView| !waits(other, device_id as int);
    let n = commands.len();
    let mut kept: Vec<DeviceCommand> = Vec::new();
    let mut i: usize = 0;
    proof {
        reveal(Seq::filter);
        assert(all_views(kept@) =~= all.take(0).filter(pred));
    }
    while i < n
        invariant
            i <= n == given.len(),
            all == all_views(given),
            pred == (|other: CommandView| !waits(other, device_id as int)),
            commands@ == given.skip(i as int),
            all_views(kept@) == all.take(i as int).filter(pred),
        decreases n - i,
    {
        let ghost before = kept@;
        let c = commands.remove(0);
        proof {
            reveal(Seq::filter);
            assert(all.take(i + 1).drop_last() =~= all.take(i as int));
            assert(all.take(i + 1).last() == c@);
            assert(commands@ =~= given.skip(i + 1));
        }
        if !(c.device_id == device_id && c.delivered_at.is_none()) {
            kept.push(c);
            proof {
                assert(all_views(kept@) =~= all_views(before).push(c@));
            }
        }
        i += 1;
    }
    proof {
        assert(all.take(i as int) =~= all);
    }
    let new = DeviceCommand {
        id,
        device_id,
        command: command.to_owned(),
        requested_at: now.to_owned(),
        delivered_at: None,
        acknowledged_at: None,
        result: None,
    };
    let ghost before = kept@;
    kept.push(new);
    proof {
        assert(all_views(kept@) =~= all_views(before).push(new@));
    }
    *commands = kept;
}

/// The command at an index is the one to hand out: it waits, and none that
/// waits was asked for earlier. Of several that were asked for at once it is
/// the first.
pub open spec fn is_next(s: Seq<CommandView>, device_id: int, i: int) -> bool {
    &&& 0 <= i < s.len()
    &&& waits(s[i], device_id)
    &&& forall|j: int|
        0 <= j < s.len() && waits(#[trigger] s[j], device_id) ==> !text_less(
            s[j].requested_at,
            s[i].requested_at,
        )
    &&& forall|j: int|
        0 <= j < i && waits(#[trigger] s[j], device_id) ==> text_less(
            s[i].requested_at,
            s[j].requested_at,
        )
}

/// Nothing waits for a phone.
pub open spec fn nothing_waits(s: Seq<CommandView>, device_id: int) -> bool {
    forall|j: int| 0 <= j < s.len() ==> !waits(#[trigger] s[j], device_id)
}

/// The command once it was handed out.
pub open spec fn handed_out(c: CommandView, now: Seq<char>) -> CommandView {
    CommandView { delivered_at: Some(now), ..c }
}

/// Handing out the command at an index gives this answer and leaves this
/// queue.
pub open spec fn delivers(
    before: Seq<CommandView>,
    i: int,
    now: Seq<char>,
    pending: PendingCommand,
    after: Seq<CommandView>,
) -> bool {
    &&& pending.id == before[i].id
    &&& pending.command@ == before[i].command
    &&& after == before.update(i, handed_out(before[i], now))
}

/// Hands out the oldest command that waits for a phone.
pub fn deliver_next(commands: &mut Vec<DeviceCommand>, device_id: i64, now: &str) -> (r: Option<
    PendingCommand,
>)
    ensures
        match r {
            Some(p) => exists|i: int|
                #[trigger] is_next(all_views(old(commands)@), device_id as int, i) && delivers(
                    all_views(old(commands)@),
                    i,
                    now@,
                    p,
                    all_views(final(commands)@),
                ),
            None => nothing_waits(all_views(old(commands)@), device_id as int)
                && final(commands)@ == old(commands)@,
        },
{
    let ghost given = commands@;
    let ghost s = all_views(given);
    let mut best: Option<usize> = None;
    let mut i: usize = 0;
    while i < commands.len()
        invariant
            commands@ == given,
            s == all_views(given),
            i <= given.len(),
            match best {
                None => forall|j: int| 0 <= j < i ==> !waits(#[trigger] s[j], device_id as int),
                Some(b) => {
                    &&& b < i
                    &&& waits(s[b as int], device_id as int)
                    &&& forall|j: int|
                        0 <= j < i && waits(#[trigger] s[j], device_id as int) ==> !text_less(
                            s[j].requested_at,
                            s[b as int].requested_at,
                        )
                    &&& forall|j: int|
                        0 <= j < b && waits(#[trigger] s[j], device_id as int) ==> text_less(
                            s[b as int].requested_at,
                            s[j].requested_at,
                        )
                },
            },
        decreases given.len() - i,
    {
        proof {
            assert(s[i as int] == commands@[i as int]@);
        }
        if commands[i].device_id == device_id && commands[i].delivered_at.is_none() {
            match best {
                None => {
                    best = Some(i);
                    proof {
                        lemma_text_trichotomy(s[i as int].requested_at, s[i as int].requested_at);
                    }
                },
                Some(b) => {
                    proof {
                        assert(s[b as int] == commands@[b as int]@);
                    }
                    if less_text(commands[i].requested_at.as_str(), commands[b].requested_at.as_str()) {
                        best = Some(i);
                        proof {
                            let x = s[i as int].requested_at;
                            let y = s[b as int].requested_at;
                            assert forall|j: int|
                                0 <= j < i && waits(
                                    #[trigger] s[j],
                                    device_id as int,
                                ) implies text_less(x, s[j].requested_at) && !text_less(
                                s[j].requested_at,
                                x,
                            ) by {
                                crate::order::lemma_texts_coherent(y, s[j].requested_at, x);
                                lemma_text_trichotomy(y, s[j].requested_at);
                                lemma_text_trichotomy(x, s[j].requested_at);
                                if text_less(y, s[j].requested_at) {
                                    crate::order::lemma_text_transitive(x, y, s[j].requested_at);
                                }
                            }
                            lemma_text_trichotomy(x, x);
                        }
                    }
                },
            }
        }
        i += 1;
    }
    match best {
        None => None,
        Some(b) => {
            let c = commands.remove(b);
            let pending = PendingCommand { id: c.id, command: c.command.clone() };
            let changed = DeviceCommand { delivered_at: Some(now.to_owned()), ..c };
            commands.insert(b, changed);
            proof {
                assert(given.remove(b as int).insert(b as int, changed) =~= given.update(
                    b as int,
                    changed,
                ));
                assert(all_views(commands@) =~= s.update(b as int, handed_out(s[b as int], now@)));
                assert(is_next(s, device_id as int, b as int));
                assert(delivers(s, b as int, now@, pending, all_views(commands@)));
            }
            Some(pending)
        },
    }
}

/// A command that was handed out is never handed out again.
pub proof fn law_handed_out_once(s: Seq<CommandView>, device_id: int, i: int, now: Seq<char>)
    requires
        is_next(s, device_id, i),
    ensures
        ({
            let after = s.update(i, handed_out(s[i], now));
            forall|other: int, j: int| #[trigger] is_next(after, other, j) ==> j != i
        }),
{
}

/// After a command was asked for, it is the only one that waits for the
/// phone, so that it is the next to be handed out. Nothing that waits for
/// another phone is touched.
pub proof fn law_last_action_wins(s: Seq<CommandView>, c: CommandView, other: int)
    requires
        c.delivered_at is None,
    ensures
        ({
            let after = queued(s, c);
            &&& is_next(after, c.device_id, after.len() - 1)
            &&& after.last() == c
            &&& forall|j: int| #[trigger] is_next(after, c.device_id, j) ==> j == after.len() - 1
            &&& other != c.device_id ==> after.filter(|x: CommandView| waits(x, other)) == s.filter(
                |x: CommandView| waits(x, other),
            )
        }),
{
    let keep = |x: CommandView| !waits(x, c.device_id);
    let kept = s.filter(keep);
    let after = queued(s, c);
    lemma_text_trichotomy(c.requested_at, c.requested_at);
    assert forall|j: int| 0 <= j < kept.len() implies !waits(#[trigger] kept[j], c.device_id) by {
        s.lemma_filter_pred(keep, j);
    }
    assert forall|j: int| 0 <= j < after.len() && waits(
        #[trigger] after[j],
        c.device_id,
    ) implies j == after.len() - 1 by {
        if j < kept.len() {
            assert(after[j] == kept[j]);
        }
    }
    if other != c.device_id {
        lemma_kept_waiting(s, c.device_id, other);
        let p = |x: CommandView| waits(x, other);
        reveal(Seq::filter);
        assert(after.drop_last() =~= kept);
        assert(after.last() == c);
        assert(!waits(c, other));
        assert(after.filter(p) == kept.filter(p));
    }
}

proof fn lemma_kept_waiting(s: Seq<CommandView>, device_id: int, other: int)
    requires
        other != device_id,
    ensures
        s.filter(|x: CommandView| !waits(x, device_id)).filter(|x: CommandView| waits(x, other))
            == s.filter(|x: CommandView| waits(x, other)),
    decreases s.len(),
{
    reveal(Seq::filter);
    if s.len() > 0 {
        let keep = |x: CommandView| !waits(x, device_id);
        let fewer = s.drop_last();
        lemma_kept_waiting(fewer, device_id, other);
        if keep(s.last()) {
            assert(fewer.filter(keep).push(s.last()).drop_last() =~= fewer.filter(keep));
        }
    }
}

// ----- answers -----

/// What is kept of an answer.
pub open spec fn answer_text(success: bool, message: Option<Seq<char>>) -> Seq<char> {
    match message {
        Some(text) => text,
        None => if success {
            "ok"@
        } else {
            "failed"@
        },
    }
}

/// The queue once a phone has answered a command. Only commands for that very
/// phone are touched.
pub open spec fn answered(
    s: Seq<CommandView>,
    device_id: int,
    command_id: int,
    answer: Seq<char>,
    now: Seq<char>,
) -> Seq<CommandView> {
    Seq::new(
        s.len(),
        |i: int|
            if s[i].id == command_id && s[i].device_id == device_id {
                CommandView { acknowledged_at: Some(now), result: Some(answer), ..s[i] }
            } else {
                s[i]
            },
    )
}

/// Enters what a phone says came of a command.
pub fn command_result(
    commands: &mut Vec<DeviceCommand>,
    device_id: i64,
    req: CommandResultRequest,
    now: &str,
)
    ensures
        all_views(final(commands)@) == answered(
            all_views(old(commands)@),
            device_id as int,
            req.command_id as int,
            answer_text(req.success, opt_view(req.message)),
            now@,
        ),
{
    let ghost given = commands@;
    let answer = match req.message {
        Some(text) => text,
        None => if req.success {
            "ok".to_owned()
        } else {
            "failed".to_owned()
        },
    };
    let ghost after = answered(
        all_views(given),
        device_id as int,
        req.command_id as int,
        answer@,
        now@,
    );
    let n = commands.len();
    let mut i: usize = 0;
    while i < n
        invariant
            n == given.len(),
            i <= n,
            commands@.len() == n,
            after == answered(
                all_views(given),
                device_id as int,
                req.command_id as int,
                answer@,
                now@,
            ),
            forall|j: int| 0 <= j < i ==> (#[trigger] commands@[j])@ == after[j],
            forall|j: int| i <= j < n ==> #[trigger] commands@[j] == given[j],
        decreases n - i,
    {
        if commands[i].id == req.command_id && commands[i].device_id == device_id {
            let c = commands.remove(i);
            let changed = DeviceCommand {
                acknowledged_at: Some(now.to_owned()),
                result: Some(answer.clone()),
                ..c
            };
            commands.insert(i, changed);
        }
        i += 1;
    }
    proof {
        assert(all_views(commands@) =~= after);
    }
}

/// A phone cannot answer for another: what stands in the queue for the other
/// is as it was.
pub proof fn law_answers_stay_with_the_phone(
    s: Seq<CommandView>,
    device_id: int,
    command_id: int,
    answer: Seq<char>,
    now: Seq<char>,
    i: int,
)
    requires
        0 <= i < s.len(),
        s[i].device_id != device_id,
    ensures
        answered(s, device_id, command_id, answer, now)[i] == s[i],
{
}

// ----- the page -----

/// The page with a phone chosen.
pub fn locate_url(device_id: i64) -> (r: String)
    ensures
        r@ == "/devices/locate?device="@ + number_text(device_id as int),
{
    let mut r = "/devices/locate?device=".to_owned();
    r.append(i64_text(device_id).as_str());
    r
}

/// Whether a phone is wiped, or why nothing is: its name must have been typed
/// exactly.
pub fn wipe(device: &Device, form: &FormFields) -> (r: Result<(), String>)
    ensures
        r is Ok <==> trimmed(field_or(form@, "confirm_name"@, ""@)) == device.name@,
        r matches Err(message) ==> message@
            == "That didn't match the device name - nothing was wiped."@,
{
    let confirm = trim(form.get_or("confirm_name", "").as_str());
    if same_text(confirm.as_str(), device.name.as_str()) {
        Ok(())
    } else {
        Err("That didn't match the device name - nothing was wiped.".to_owned())
    }
}

// ----- what holds of these -----

/// A command that was just asked for waits for the phone that it is for.
pub proof fn law_new_commands_wait(id: int, device_id: int, command: Seq<char>, now: Seq<char>)
    ensures
        ({
            let c = fresh(id, device_id, command, now);
            &&& c.id == id && c.device_id == device_id && c.command == command
            &&& c.requested_at == now
            &&& c.delivered_at is None && c.acknowledged_at is None && c.result is None
            &&& waits(c, device_id)
        }),
{
}

/// The command that is handed out next is one for the phone that was not handed
/// out yet, and none of those was asked for before it.
pub proof fn law_oldest_command_is_next(s: Seq<CommandView>, device_id: int, i: int, j: int)
    requires
        0 <= j < s.len(),
        s[j].device_id == device_id,
        s[j].delivered_at is None,
    ensures
        !nothing_waits(s, device_id),
        is_next(s, device_id, i) ==> {
            &&& 0 <= i < s.len()
            &&& s[i].device_id == device_id
            &&& s[i].delivered_at is None
            &&& !text_less(s[j].requested_at, s[i].requested_at)
            &&& s[j].requested_at == s[i].requested_at ==> i <= j
        },
{
    assert(waits(s[j], device_id));
    if is_next(s, device_id, i) && s[j].requested_at == s[i].requested_at {
        lemma_text_trichotomy(s[i].requested_at, s[j].requested_at);
    }
}

/// Handing out a command notes when, and changes nothing else.
pub proof fn law_handing_out_is_noted(
    before: Seq<CommandView>,
    i: int,
    j: int,
    now: Seq<char>,
    pending: PendingCommand,
    after: Seq<CommandView>,
)
    requires
        0 <= i < before.len(),
        0 <= j < before.len(),
        delivers(before, i, now, pending, after),
    ensures
        pending.id == before[i].id,
        pending.command@ == before[i].command,
        after.len() == before.len(),
        after[i].delivered_at == Some(now),
        after[i].id == before[i].id,
        after[i].device_id == before[i].device_id,
        after[i].command == before[i].command,
        after[i].requested_at == before[i].requested_at,
        after[i].acknowledged_at == before[i].acknowledged_at,
        after[i].result == before[i].result,
        j != i ==> after[j] == before[j],
{
}

/// A phone's message is kept as its answer. Without one, the answer says whether
/// it went well.
pub proof fn law_messages_are_the_answer(success: bool, text: Seq<char>)
    ensures
        answer_text(success, Some(text)) == text,
        answer_text(true, None) == "ok"@,
        answer_text(false, None) == "failed"@,
{
}

/// The answer to a command is kept with that command, with its time. All else of
/// the command, and every other command, is as before.
pub proof fn law_answers_are_kept(
    s: Seq<CommandView>,
    device_id: int,
    command_id: int,
    answer: Seq<char>,
    now: Seq<char>,
    i: int,
)
    requires
        0 <= i < s.len(),
    ensures
        ({
            let after = answered(s, device_id, command_id, answer, now);
            &&& after.len() == s.len()
            &&& s[i].id == command_id && s[i].device_id == device_id ==> {
                &&& after[i].result == Some(answer)
                &&& after[i].acknowledged_at == Some(now)
                &&& after[i].id == s[i].id
                &&& after[i].device_id == s[i].device_id
                &&& after[i].command == s[i].command
                &&& after[i].requested_at == s[i].requested_at
                &&& after[i].delivered_at == s[i].delivered_at
            }
            &&& s[i].id != command_id || s[i].device_id != device_id ==> after[i] == s[i]
        }),
{
}

/// Asking for a command drops what still waited for that phone, and nothing else.
pub proof fn law_only_what_waited_is_dropped(s: Seq<CommandView>, c: CommandView, x: CommandView)
    requires
        x != c,
    ensures
        queued(s, c).contains(x) <==> s.contains(x) && (x.device_id != c.device_id
            || x.delivered_at is Some),
{
    let keep = |other: CommandView| !waits(other, c.device_id);
    lemma_filter_members(s, keep, x);
    let cut = s.filter(keep);
    let after = queued(s, c);
    if cut.contains(x) {
        let i = choose|i: int| 0 <= i < cut.len() && cut[i] == x;
        assert(after[i] == x);
    }
    if after.contains(x) {
        let i = choose|i: int| 0 <= i < after.len() && after[i] == x;
        assert(cut[i] == x);
    }
}

} // verus!
