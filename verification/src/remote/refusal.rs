//! What a serve under a taken name can be relied on to say.

use vstd::prelude::*;
use crate::failure::plain;
use crate::remote::serve::{
    collision, collision_lines, delete_key, prepare_talk, stop_first, RequestView,
};
use crate::remote::session::{
    key_file, law_a_session_name_is_safe, safe, session_name, NameOnDisk,
};
use crate::remote::transport::Exchange;
use crate::text::{
    dec, has_text, joined, lemma_has_text, lemma_joined_hold, lemma_joined_is_whole,
    lemma_stands_in_a_line, lemma_stands_in_what_it_stands_in, lemma_stands_within, occurs_at,
    whole_lines,
};

verus! {

/// The command that stops a session.
pub open spec fn stop_session(session_id: Seq<char>) -> Seq<char> {
    "rocm remote stop "@ + session_id
}

/// Where the first line of a refusal names the machine.
pub open spec fn recorded_for(target: Seq<char>) -> Seq<char> {
    "a session is already recorded for "@ + target
}

/// Whether the command that stops a session begins nowhere in a text.
spec fn never_begins(s: Seq<char>) -> bool {
    forall|i: int|
        0 <= i < s.len() - 13 ==> !(#[trigger] s[i] == 'r' && s[i + 1] == 'o' && s[i + 2] == 'c'
            && s[i + 5] == 'r' && s[i + 13] == 't')
}

/// Whether no character of a text is an `r` before an `o`.
spec fn no_ro(s: Seq<char>) -> bool {
    forall|i: int| 0 <= i < s.len() - 1 ==> !(#[trigger] s[i] == 'r' && s[i + 1] == 'o')
}

/// Whether no character of a text is a stop before an `e`.
spec fn no_dot_e(s: Seq<char>) -> bool {
    forall|i: int| 0 <= i < s.len() - 1 ==> !(#[trigger] s[i] == '.' && s[i + 1] == 'e')
}

/// What is known of the command, character by character.
proof fn lemma_stop_session(peer_host: Seq<char>, remote_port: u16)
    ensures
        ({
            let s = stop_session(session_name(peer_host, remote_port));
            &&& s.len() > 18
            &&& s[0] == 'r' && s[1] == 'o' && s[2] == 'c' && s[5] == 'r' && s[12] == 's' && s[13]
                == 't' && s[17] == 'r'
            &&& forall|i: int|
                0 <= i < s.len() ==> (#[trigger] s[i] == ' ' || safe(s[i])) && (s[i] == ' ' ==> i
                    == 4 || i == 11 || i == 16)
        }),
{
    let id = session_name(peer_host, remote_port);
    let s = stop_session(id);
    law_a_session_name_is_safe(peer_host, remote_port);
    reveal_strlit("rocm remote stop ");
    reveal_strlit("remote-");
    reveal_strlit("-");
    assert(id[0] == 'r');
    assert(s[17] == id[0]);
    assert forall|i: int| 0 <= i < s.len() implies (#[trigger] s[i] == ' ' || safe(s[i])) && (s[i]
        == ' ' ==> i == 4 || i == 11 || i == 16) by {
        if i >= 17 {
            assert(s[i] == id[i - 17]);
        }
    }
}

/// A text in which the command does not begin does not hold it.
proof fn lemma_never_begins(s: Seq<char>, peer_host: Seq<char>, remote_port: u16)
    requires
        never_begins(s),
    ensures
        !has_text(s, stop_session(session_name(peer_host, remote_port))),
{
    let command = stop_session(session_name(peer_host, remote_port));
    lemma_stop_session(peer_host, remote_port);
    if has_text(s, command) {
        let at = choose|at: int| occurs_at(s, command, at);
        let found = s.subrange(at, at + command.len());
        assert(found[0] == s[at] && found[1] == s[at + 1] && found[2] == s[at + 2]);
        assert(found[5] == s[at + 5] && found[13] == s[at + 13]);
    }
}

/// Behind a text in which the command cannot begin, it stands in what follows.
proof fn lemma_stands_behind(
    a: Seq<char>,
    b: Seq<char>,
    peer_host: Seq<char>,
    remote_port: u16,
)
    requires
        forall|i: int|
            0 <= i < a.len() && #[trigger] a[i] == 'r' ==> i + 1 < a.len() && (a[i + 1] != 'o' || (
            i + 13 < a.len() && (a[i + 2] != 'c' || a[i + 13] != 't'))),
        has_text(a + b, stop_session(session_name(peer_host, remote_port))),
    ensures
        has_text(b, stop_session(session_name(peer_host, remote_port))),
{
    let command = stop_session(session_name(peer_host, remote_port));
    lemma_stop_session(peer_host, remote_port);
    let hay = a + b;
    let at = choose|at: int| occurs_at(hay, command, at);
    let found = hay.subrange(at, at + command.len());
    if at < a.len() {
        assert(found[0] == a[at]);
        assert(found[1] == hay[at + 1] && found[2] == hay[at + 2] && found[13] == hay[at + 13]);
        assert(hay[at + 1] == a[at + 1]);
        assert(hay[at + 2] == a[at + 2] && hay[at + 13] == a[at + 13]);
        assert(false);
    }
    assert(b.subrange(at - a.len(), at - a.len() + command.len()) =~= found);
    assert(occurs_at(b, command, at - a.len()));
}

/// Before a text that begins with a space and none of the command's words, it
/// stands in what precedes.
proof fn lemma_stands_before(
    a: Seq<char>,
    b: Seq<char>,
    peer_host: Seq<char>,
    remote_port: u16,
)
    requires
        b.len() >= 2,
        b[0] == ' ',
        b[1] != 'r',
        b[1] != 's',
        never_begins(b),
        has_text(a + b, stop_session(session_name(peer_host, remote_port))),
    ensures
        has_text(a, stop_session(session_name(peer_host, remote_port))),
{
    let command = stop_session(session_name(peer_host, remote_port));
    lemma_stop_session(peer_host, remote_port);
    let hay = a + b;
    let at = choose|at: int| occurs_at(hay, command, at);
    let found = hay.subrange(at, at + command.len());
    if at >= a.len() {
        assert(b.subrange(at - a.len(), at - a.len() + command.len()) =~= found);
        assert(occurs_at(b, command, at - a.len()));
        lemma_never_begins(b, peer_host, remote_port);
        assert(false);
    } else if at + command.len() > a.len() {
        let k = a.len() - at;
        assert(found[k] == b[0]);
        assert(command[k] == ' ');
        assert(found[k + 1] == hay[at + k + 1]);
        assert(hay[at + k + 1] == b[1]);
        assert(false);
    }
    assert(a.subrange(at, at + command.len()) =~= found);
    assert(occurs_at(a, command, at));
}

proof fn lemma_no_ro_concat(a: Seq<char>, b: Seq<char>)
    requires
        no_ro(a),
        no_ro(b),
        b.len() > 0 ==> b[0] != 'o',
    ensures
        no_ro(a + b),
{
    let s = a + b;
    assert forall|i: int| 0 <= i < s.len() - 1 implies !(#[trigger] s[i] == 'r' && s[i + 1]
        == 'o') by {
        if i < a.len() {
            assert(s[i] == a[i]);
            if i + 1 < a.len() {
                assert(s[i + 1] == a[i + 1]);
            } else {
                assert(s[i + 1] == b[0]);
            }
        } else {
            assert(s[i] == b[i - a.len()]);
            assert(s[i + 1] == b[i - a.len() + 1]);
        }
    }
}

proof fn lemma_no_dot_e_concat(a: Seq<char>, b: Seq<char>)
    requires
        no_dot_e(a),
        no_dot_e(b),
        a.len() > 0 && b.len() > 0 ==> a.last() != '.' || b[0] != 'e',
    ensures
        no_dot_e(a + b),
{
    let s = a + b;
    assert forall|i: int| 0 <= i < s.len() - 1 implies !(#[trigger] s[i] == '.' && s[i + 1]
        == 'e') by {
        if i < a.len() {
            assert(s[i] == a[i]);
            if i + 1 < a.len() {
                assert(s[i + 1] == a[i + 1]);
            } else {
                assert(s[i + 1] == b[0]);
            }
        } else {
            assert(s[i] == b[i - a.len()]);
            assert(s[i + 1] == b[i - a.len() + 1]);
        }
    }
}

proof fn lemma_dec_is_digits(n: nat)
    ensures
        dec(n).len() > 0,
        forall|i: int| 0 <= i < dec(n).len() ==> '0' <= #[trigger] dec(n)[i] <= '9',
    decreases n,
{
    if n >= 10 {
        lemma_dec_is_digits(n / 10);
        let before = dec(n / 10);
        assert forall|i: int| 0 <= i < dec(n).len() implies '0' <= #[trigger] dec(n)[i]
            <= '9' by {
            if i < before.len() {
                assert(dec(n)[i] == before[i]);
            }
        }
    }
}

/// Where there is a credential alone, the command stands only where the machine's
/// name or the file's holds it.
proof fn lemma_credential_alone(
    request: RequestView,
    peer_host: Seq<char>,
    key_path: Seq<char>,
)
    requires
        ({
            let id = session_name(peer_host, request.remote_port);
            let name = NameOnDisk { record: false, key: true };
            has_text(collision(name, request, id, key_path)->0, stop_session(id))
        }),
    ensures
        ({
            let id = session_name(peer_host, request.remote_port);
            has_text(request.target, stop_session(id)) || has_text(key_path, stop_session(id))
        }),
{
    let port = request.remote_port;
    let id = session_name(peer_host, port);
    let command = stop_session(id);
    let target = request.target;
    let none: Seq<char> = seq![];
    let list = collision_lines(NameOnDisk { record: false, key: true }, request, id, key_path)->0;
    let text = joined(list, "\n"@);
    lemma_stop_session(peer_host, port);
    lemma_joined_is_whole(list);
    lemma_stands_within(none, text, "\n"@, command);
    assert(none + text + "\n"@ =~= whole_lines(list));
    lemma_stands_in_a_line(list, command);
    let k = choose|k: int| 0 <= k < list.len() && has_text(#[trigger] list[k], command);
    if k == 0 {
        let a = "a credential from an earlier `rocm remote serve` on "@;
        let c = " is still on this machine, with no session recorded beside it."@;
        let rest = " port "@ + dec(port as nat) + c;
        reveal_strlit("a credential from an earlier `rocm remote serve` on ");
        reveal_strlit(" port ");
        reveal_strlit(" is still on this machine, with no session recorded beside it.");
        lemma_dec_is_digits(port as nat);
        lemma_no_ro_concat(" port "@, dec(port as nat));
        lemma_no_ro_concat(" port "@ + dec(port as nat), c);
        assert(list[0] =~= a + (target + rest));
        lemma_stands_behind(a, target + rest, peer_host, port);
        lemma_stands_before(target, rest, peer_host, port);
    } else if k == 1 {
        reveal_strlit(
            "An earlier attempt got far enough to mint a key and not far enough to record what it started, so a model may be running there untracked.",
        );
        lemma_never_begins(list[1], peer_host, port);
    } else if k == 2 {
        let a = "Check the machine: ssh "@;
        let rest = " -- rocm services list"@;
        reveal_strlit("Check the machine: ssh ");
        reveal_strlit(" -- rocm services list");
        assert(list[2] =~= a + (target + rest));
        lemma_stands_behind(a, target + rest, peer_host, port);
        lemma_stands_before(target, rest, peer_host, port);
    } else if k == 3 {
        reveal_strlit("Once you are sure nothing is using it, delete: ");
        lemma_stands_behind(
            "Once you are sure nothing is using it, delete: "@,
            key_path,
            peer_host,
            port,
        );
    } else {
        reveal_strlit("Or serve on another port with `--remote-port`.");
        lemma_never_begins(list[4], peer_host, port);
    }
}

/// Where a session is recorded, the credential's file stands only in the first
/// line, up to the machine's name.
proof fn lemma_recorded(request: RequestView, peer_host: Seq<char>, folder: Seq<char>)
    requires
        ({
            let id = session_name(peer_host, request.remote_port);
            let key_path = folder + key_file(id);
            let name = NameOnDisk { record: true, key: true };
            has_text(collision(name, request, id, key_path)->0, key_path)
        }),
    ensures
        has_text(
            recorded_for(request.target),
            folder + key_file(session_name(peer_host, request.remote_port)),
        ),
{
    let port = request.remote_port;
    let id = session_name(peer_host, port);
    let key_path = folder + key_file(id);
    let list = collision_lines(NameOnDisk { record: true, key: true }, request, id, key_path)->0;
    let text = joined(list, "\n"@);
    let head = recorded_for(request.target);
    let digits = dec(port as nat);
    let taking = "Serving again here would take over its credential and could leave it running with no way to call it."@;
    let other = "Or serve on another port with `--remote-port`."@;
    reveal_strlit(" on port ");
    reveal_strlit(".");
    reveal_strlit("\n");
    reveal_strlit(
        "Serving again here would take over its credential and could leave it running with no way to call it.",
    );
    reveal_strlit("Stop it first: rocm remote stop ");
    reveal_strlit("Or serve on another port with `--remote-port`.");
    reveal_strlit(".endpoint-key");
    law_a_session_name_is_safe(peer_host, port);
    lemma_dec_is_digits(port as nat);
    let r1 = " on port "@ + digits;
    let r2 = r1 + "."@;
    let r3 = r2 + "\n"@;
    let r4 = r3 + taking;
    let r5 = r4 + "\n"@;
    let r6 = r5 + "Stop it first: rocm remote stop "@;
    let r7 = r6 + id;
    let r8 = r7 + "\n"@;
    let rest = r8 + other;
    lemma_no_dot_e_concat(" on port "@, digits);
    lemma_no_dot_e_concat(r1, "."@);
    lemma_no_dot_e_concat(r2, "\n"@);
    lemma_no_dot_e_concat(r3, taking);
    lemma_no_dot_e_concat(r4, "\n"@);
    lemma_no_dot_e_concat(r5, "Stop it first: rocm remote stop "@);
    assert(r6.last() == ' ');
    lemma_no_dot_e_concat(r6, id);
    lemma_no_dot_e_concat(r7, "\n"@);
    lemma_no_dot_e_concat(r8, other);
    assert(rest[0] == ' ');
    let l = list;
    assert(l.drop_last().drop_last().drop_last() =~= seq![l[0]]);
    assert(l.drop_last().drop_last() =~= seq![l[0], l[1]]);
    assert(l.drop_last() =~= seq![l[0], l[1], l[2]]);
    assert(joined(seq![l[0]], "\n"@) == l[0]);
    assert(joined(seq![l[0], l[1]], "\n"@) == l[0] + "\n"@ + l[1]);
    assert(joined(seq![l[0], l[1], l[2]], "\n"@) == l[0] + "\n"@ + l[1] + "\n"@ + l[2]);
    assert(text == l[0] + "\n"@ + l[1] + "\n"@ + l[2] + "\n"@ + l[3]);
    assert(text =~= head + rest);
    let at = choose|at: int| occurs_at(text, key_path, at);
    let found = text.subrange(at, at + key_path.len());
    let n = key_path.len() as int;
    let m = at + n - 13;
    assert(found[n - 13] == key_path[n - 13] && key_path[n - 13] == '.');
    assert(found[n - 12] == key_path[n - 12] && key_path[n - 12] == 'e');
    assert(text[m] == '.' && text[m + 1] == 'e');
    if m >= head.len() {
        assert(text[m] == rest[m - head.len()] && text[m + 1] == rest[m + 1 - head.len()]);
        assert(false);
    } else if m + 13 > head.len() {
        let j = head.len() - m;
        assert(found[n - 13 + j] == text[head.len() as int]);
        assert(text[head.len() as int] == rest[0]);
        assert(key_path[n - 13 + j] == ".endpoint-key"@[j]);
        assert(false);
    }
    assert(head.subrange(at, at + n) =~= found);
    assert(occurs_at(head, key_path, at));
}

/// A serve under a taken name, and only under a taken one, is refused before
/// anything is sent. The refusal names the command that stops the session where one
/// is recorded, and the credential's file where there is a credential alone. It
/// names either in the other case only where the texts it repeats hold it: the
/// machine's name, as it was given, and the path of the file.
pub proof fn law_a_refusal_names_its_remedy(
    h: Seq<Exchange>,
    at: int,
    name: NameOnDisk,
    request: RequestView,
    peer_host: Seq<char>,
    folder: Seq<char>,
)
    ensures
        ({
            let id = session_name(peer_host, request.remote_port);
            let key_path = folder + key_file(id);
            let refusal = collision(name, request, id, key_path);
            let talk = prepare_talk(h, at, name, request, id, key_path);
            &&& refusal is Some <==> name.record || name.key
            &&& refusal matches Some(text) ==> {
                &&& talk.fits && talk.end == at
                &&& talk.value.result is Err && talk.value.result->Err_0 == plain(text)
                &&& has_text(text, stop_session(id)) <==> name.record || has_text(
                    request.target,
                    stop_session(id),
                ) || has_text(key_path, stop_session(id))
                &&& has_text(text, key_path) <==> !name.record || has_text(
                    recorded_for(request.target),
                    key_path,
                )
            }
        }),
{
    let id = session_name(peer_host, request.remote_port);
    let key_path = folder + key_file(id);
    let command = stop_session(id);
    let none: Seq<char> = seq![];
    if name.record || name.key {
        let list = collision_lines(name, request, id, key_path)->0;
        let text = joined(list, "\n"@);
        let target = request.target;
        if name.record {
            reveal_strlit("Stop it first: rocm remote stop ");
            reveal_strlit("Stop it first: ");
            reveal_strlit("rocm remote stop ");
            lemma_joined_hold(list, "\n"@, 2);
            assert(list[2] == stop_first(id));
            assert(stop_first(id) =~= "Stop it first: "@ + command + none);
            lemma_has_text("Stop it first: "@, command, none);
            lemma_stands_in_what_it_stands_in(text, list[2], command);
            if has_text(recorded_for(target), key_path) {
                let rest = " on port "@ + dec(request.remote_port as nat) + "."@;
                lemma_joined_hold(list, "\n"@, 0);
                assert(list[0] =~= none + recorded_for(target) + rest);
                lemma_stands_within(none, recorded_for(target), rest, key_path);
                lemma_stands_in_what_it_stands_in(text, list[0], key_path);
            }
            if has_text(text, key_path) {
                lemma_recorded(request, peer_host, folder);
            }
        } else {
            let a = "Once you are sure nothing is using it, delete: "@;
            lemma_joined_hold(list, "\n"@, 3);
            assert(list[3] == delete_key(key_path));
            assert(list[3] =~= a + key_path + none);
            lemma_has_text(a, key_path, none);
            lemma_stands_in_what_it_stands_in(text, list[3], key_path);
            if has_text(text, command) {
                lemma_credential_alone(request, peer_host, key_path);
            }
            if has_text(key_path, command) {
                lemma_stands_in_what_it_stands_in(text, key_path, command);
            }
            if has_text(target, command) {
                let b = "Check the machine: ssh "@;
                lemma_joined_hold(list, "\n"@, 2);
                assert(list[2] == b + target + " -- rocm services list"@);
                lemma_has_text(b, target, " -- rocm services list"@);
                lemma_stands_in_what_it_stands_in(text, list[2], target);
                lemma_stands_in_what_it_stands_in(text, target, command);
            }
        }
    }
}

} // verus!
