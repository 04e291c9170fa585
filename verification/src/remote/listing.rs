//! What a listing of machines can be relied on to say.

use vstd::prelude::*;
use crate::remote::tailnet::{
    all_entry_lines, bare_tag, endpoint_of, entry_lines, foot_lines, head_lines, none_listed,
    online_count, relay_lines, selection, status_line, target_lines, targets_text, PeerView,
    StatusView,
};
use crate::text::{
    dec, digit, has_text, joined, lemma_has_text, lemma_joined_hold, lemma_one_line_concat,
    lemma_one_line_dec, lemma_one_line_joined, lemma_stands_in_a_line, lemma_stands_in_one,
    lemma_stands_in_what_it_stands_in, lemma_stands_within, lemma_whole_lines_hold,
    lemma_whole_lines_read, lines_of, occurs_at, one_line, whole_lines,
};

verus! {

/// Those of some lines that name a machine.
pub open spec fn bullets(list: Seq<Seq<char>>) -> Seq<Seq<char>>
    decreases list.len(),
{
    if list.len() == 0 {
        seq![]
    } else if occurs_at(list.last(), "- "@, 0) {
        bullets(list.drop_last()).push(list.last())
    } else {
        bullets(list.drop_last())
    }
}

/// Whether everything a machine reports is one line.
pub open spec fn on_one_line(p: PeerView) -> bool {
    &&& one_line(p.host)
    &&& one_line(p.dns_name)
    &&& one_line(p.os)
    &&& forall|i: int| 0 <= i < p.addresses.len() ==> one_line(#[trigger] p.addresses[i])
    &&& forall|i: int| 0 <= i < p.tags.len() ==> one_line(#[trigger] p.tags[i])
}

/// Whether everything that a listing repeats is one line.
pub open spec fn all_on_one_line(status: StatusView, tag: Option<Seq<char>>) -> bool {
    let listed = selection(status.peers, tag);
    &&& forall|i: int| 0 <= i < listed.len() ==> on_one_line(#[trigger] listed[i])
    &&& status.this_machine matches Some(m) ==> one_line(m.host)
    &&& listed.len() == 0 ==> (tag matches Some(t) ==> one_line(t))
}

/// A line that neither names a machine nor is the one on relayed traffic.
spec fn other(l: Seq<char>) -> bool {
    l.len() == 0 || (l[0] != '-' && l[0] != 'm')
}

proof fn lemma_bullets_add(a: Seq<Seq<char>>, b: Seq<Seq<char>>)
    ensures
        bullets(a + b) == bullets(a) + bullets(b),
    decreases b.len(),
{
    if b.len() == 0 {
        assert(a + b =~= a);
        assert(bullets(a) + bullets(b) =~= bullets(a));
    } else {
        lemma_bullets_add(a, b.drop_last());
        assert((a + b).drop_last() =~= a + b.drop_last());
        assert(bullets(a + b) =~= bullets(a) + bullets(b));
    }
}

proof fn lemma_no_bullets(list: Seq<Seq<char>>)
    requires
        forall|i: int|
            0 <= i < list.len() ==> (#[trigger] list[i]).len() == 0 || list[i][0] != '-',
    ensures
        bullets(list) == Seq::<Seq<char>>::empty(),
    decreases list.len(),
{
    reveal_strlit("- ");
    if list.len() > 0 {
        let l = list.last();
        assert(l == list[list.len() - 1]);
        if occurs_at(l, "- "@, 0) {
            assert(l.subrange(0, 2)[0] == l[0]);
        }
        assert forall|i: int| 0 <= i < list.drop_last().len() implies (
        #[trigger] list.drop_last()[i]).len() == 0 || list.drop_last()[i][0] != '-' by {
            assert(list.drop_last()[i] == list[i]);
        }
        lemma_no_bullets(list.drop_last());
    }
}

proof fn lemma_status_line(listed: Seq<PeerView>)
    ensures
        one_line(status_line(listed)),
        other(status_line(listed)),
{
    reveal_strlit("Status: ");
    reveal_strlit(" online, ");
    reveal_strlit(" offline");
    let online = dec(online_count(listed));
    let rest = dec((listed.len() - online_count(listed)) as nat);
    lemma_one_line_dec(online_count(listed));
    lemma_one_line_dec((listed.len() - online_count(listed)) as nat);
    lemma_one_line_concat("Status: "@, online);
    lemma_one_line_concat("Status: "@ + online, " online, "@);
    lemma_one_line_concat("Status: "@ + online + " online, "@, rest);
    lemma_one_line_concat("Status: "@ + online + " online, "@ + rest, " offline"@);
    assert(status_line(listed)[0] == 'S');
}

proof fn lemma_head_lines(status: StatusView, listed: Seq<PeerView>)
    requires
        status.this_machine matches Some(m) ==> one_line(m.host),
    ensures
        forall|i: int|
            0 <= i < head_lines(status, listed).len() ==> one_line(
                #[trigger] head_lines(status, listed)[i],
            ) && other(head_lines(status, listed)[i]),
        head_lines(status, listed).contains(status_line(listed)),
{
    let list = head_lines(status, listed);
    reveal_strlit("Remote Targets");
    reveal_strlit("This machine: ");
    lemma_status_line(listed);
    if let Some(m) = status.this_machine {
        lemma_one_line_concat("This machine: "@, m.host);
        assert(("This machine: "@ + m.host)[0] == 'T');
    }
    assert(list[list.len() - 2] == status_line(listed));
}

/// A line of an entry: a label that begins with a space, and a value.
proof fn lemma_labelled(label: Seq<char>, value: Seq<char>)
    requires
        label.len() > 0,
        label[0] == ' ',
        one_line(label),
        one_line(value),
    ensures
        one_line(label + value),
        other(label + value),
{
    lemma_one_line_concat(label, value);
    assert((label + value)[0] == ' ');
}

proof fn lemma_entry_lines(p: PeerView)
    requires
        on_one_line(p),
    ensures
        forall|i: int|
            0 <= i < entry_lines(p).len() ==> one_line(#[trigger] entry_lines(p)[i]) && (i == 0
                || other(entry_lines(p)[i])),
        entry_lines(p).len() > 0,
        entry_lines(p)[0] == "- "@ + p.host,
{
    let list = entry_lines(p);
    reveal_strlit("- ");
    reveal_strlit("  address: ");
    reveal_strlit("  ip: ");
    reveal_strlit("  os: ");
    reveal_strlit("  tags: ");
    reveal_strlit("  online: ");
    reveal_strlit("yes");
    reveal_strlit("no");
    reveal_strlit("  check: rocm remote doctor ");
    reveal_strlit(", ");
    lemma_one_line_concat("- "@, p.host);
    if p.addresses.len() > 0 {
        assert(one_line(p.addresses[0]));
    }
    lemma_labelled("  address: "@, endpoint_of(p));
    lemma_one_line_joined(p.addresses, ", "@);
    lemma_labelled("  ip: "@, joined(p.addresses, ", "@));
    lemma_labelled("  os: "@, p.os);
    lemma_one_line_joined(p.tags, ", "@);
    lemma_labelled("  tags: "@, joined(p.tags, ", "@));
    lemma_labelled("  online: "@, "yes"@);
    lemma_labelled("  online: "@, "no"@);
    lemma_labelled("  check: rocm remote doctor "@, p.host);
}

proof fn lemma_all_entry_lines(listed: Seq<PeerView>)
    requires
        forall|i: int| 0 <= i < listed.len() ==> on_one_line(#[trigger] listed[i]),
    ensures
        forall|i: int|
            0 <= i < all_entry_lines(listed).len() ==> one_line(
                #[trigger] all_entry_lines(listed)[i],
            ) && (all_entry_lines(listed)[i].len() == 0 || all_entry_lines(listed)[i][0] != 'm'),
        bullets(all_entry_lines(listed)) == listed.map_values(|p: PeerView| "- "@ + p.host),
    decreases listed.len(),
{
    reveal_strlit("- ");
    let named = listed.map_values(|p: PeerView| "- "@ + p.host);
    if listed.len() == 0 {
        assert(bullets(all_entry_lines(listed)) =~= named);
    } else {
        let front = listed.drop_last();
        let p = listed.last();
        assert(p == listed[listed.len() - 1]);
        assert forall|i: int| 0 <= i < front.len() implies on_one_line(#[trigger] front[i]) by {
            assert(front[i] == listed[i]);
        }
        lemma_all_entry_lines(front);
        lemma_entry_lines(p);
        let entry = entry_lines(p);
        let rest = entry.drop_first();
        assert forall|i: int| 0 <= i < rest.len() implies (#[trigger] rest[i]).len() == 0
            || rest[i][0] != '-' by {
            assert(rest[i] == entry[i + 1]);
        }
        lemma_no_bullets(rest);
        lemma_bullets_add(seq![entry[0]], rest);
        assert(entry =~= seq![entry[0]] + rest);
        assert(entry[0].subrange(0, 2) =~= "- "@);
        let one = seq![entry[0]];
        assert(one.drop_last() =~= seq![]);
        assert(one.last() == entry[0]);
        assert(occurs_at(one.last(), "- "@, 0));
        assert(bullets(one.drop_last()) =~= seq![]);
        assert(bullets(seq![entry[0]]) =~= seq![entry[0]]);
        lemma_bullets_add(all_entry_lines(front), entry);
        assert(named =~= front.map_values(|p: PeerView| "- "@ + p.host).push("- "@ + p.host));
        assert(bullets(all_entry_lines(listed)) =~= named);
        assert(entry[0][0] == '-');
        let all = all_entry_lines(listed);
        assert forall|i: int| 0 <= i < all.len() implies one_line(#[trigger] all[i]) && (
        all[i].len() == 0 || all[i][0] != 'm') by {
            if i < all_entry_lines(front).len() {
                assert(all[i] == all_entry_lines(front)[i]);
            } else {
                assert(all[i] == entry[i - all_entry_lines(front).len()]);
            }
        }
    }
}

proof fn lemma_relay_lines()
    ensures
        forall|i: int|
            0 <= i < relay_lines().len() ==> one_line(#[trigger] relay_lines()[i]) && (
            relay_lines()[i].len() == 0 || relay_lines()[i][0] != '-'),
{
    reveal_strlit("Note: Tailscale is running here without a network device, so traffic to these");
    reveal_strlit("machines is relayed rather than sent directly, which limits throughput.");
}

proof fn lemma_foot_lines(userspace_networking: bool, tag: Option<Seq<char>>)
    ensures
        forall|i: int|
            0 <= i < foot_lines(userspace_networking, tag).len() ==> one_line(
                #[trigger] foot_lines(userspace_networking, tag)[i],
            ) && (foot_lines(userspace_networking, tag)[i].len() == 0 || foot_lines(
                userspace_networking,
                tag,
            )[i][0] != '-') && (!userspace_networking ==> other(
                foot_lines(userspace_networking, tag)[i],
            )),
{
    lemma_relay_lines();
    reveal_strlit(
        "Listed machines are reachable on the tailnet. That does not mean they have a GPU,",
    );
    reveal_strlit("ROCm, or the ROCm CLI — run `rocm remote doctor <machine>` to find out.");
    reveal_strlit("Narrow this list with `--tag <tag>` once your tailnet tags its GPU machines.");
    let list = foot_lines(userspace_networking, tag);
    assert forall|i: int| 0 <= i < list.len() implies one_line(#[trigger] list[i]) && (list[i].len()
        == 0 || list[i][0] != '-') && (!userspace_networking ==> other(list[i])) by {
        if userspace_networking && 1 <= i < 4 {
            assert(list[i] == relay_lines()[i - 1]);
        }
    }
}

proof fn lemma_none_listed(tag: Option<Seq<char>>)
    requires
        tag matches Some(t) ==> one_line(t),
    ensures
        one_line(none_listed(tag)),
        other(none_listed(tag)),
{
    reveal_strlit("No tailnet machines are tagged `");
    reveal_strlit("`.");
    reveal_strlit("No other machines are on this tailnet.");
    if let Some(t) = tag {
        lemma_one_line_concat("No tailnet machines are tagged `"@, t);
        lemma_one_line_concat("No tailnet machines are tagged `"@ + t, "`."@);
        assert(none_listed(tag)[0] == 'N');
    }
}

/// A listing is read back line by line. The lines that begin with a dash are those
/// of the selected machines, each once, in order; one line says how many of them
/// are up; and that traffic is relayed is said exactly where it is.
pub proof fn law_a_listing_names_exactly_the_selected_machines(
    status: StatusView,
    tag: Option<Seq<char>>,
)
    requires
        all_on_one_line(status, tag),
    ensures
        ({
            let listed = selection(status.peers, tag);
            let shown = lines_of(targets_text(status, tag));
            &&& shown == target_lines(status, tag)
            &&& bullets(shown) == listed.map_values(|p: PeerView| "- "@ + p.host)
            &&& shown.contains(status_line(listed))
            &&& shown.contains(relay_lines()[1]) <==> listed.len() > 0
                && status.userspace_networking
        }),
{
    let listed = selection(status.peers, tag);
    let all = target_lines(status, tag);
    let head = head_lines(status, listed);
    let userspace = status.userspace_networking;
    reveal_strlit("machines is relayed rather than sent directly, which limits throughput.");
    assert(relay_lines()[1][0] == 'm');
    lemma_head_lines(status, listed);
    lemma_no_bullets(head);
    let s = choose|s: int| 0 <= s < head.len() && head[s] == status_line(listed);
    if listed.len() == 0 {
        lemma_none_listed(tag);
        assert forall|i: int| 0 <= i < all.len() implies one_line(#[trigger] all[i]) && other(
            all[i],
        ) by {
            if i < head.len() {
                assert(all[i] == head[i]);
            }
        }
        lemma_no_bullets(all);
        assert(bullets(all) =~= listed.map_values(|p: PeerView| "- "@ + p.host));
    } else {
        let entries = all_entry_lines(listed);
        let foot = foot_lines(userspace, tag);
        lemma_all_entry_lines(listed);
        lemma_foot_lines(userspace, tag);
        lemma_no_bullets(foot);
        lemma_bullets_add(head, entries);
        lemma_bullets_add(head + entries, foot);
        assert(bullets(all) =~= listed.map_values(|p: PeerView| "- "@ + p.host));
        assert forall|i: int| 0 <= i < all.len() implies one_line(#[trigger] all[i]) && (!userspace
            ==> all[i].len() == 0 || all[i][0] != 'm') by {
            if i < head.len() {
                assert(all[i] == head[i]);
            } else if i < head.len() + entries.len() {
                assert(all[i] == entries[i - head.len()]);
            } else {
                assert(all[i] == foot[i - head.len() - entries.len()]);
            }
        }
        if userspace {
            assert(all[(head.len() + entries.len() + 2) as int] == relay_lines()[1]);
        }
    }
    assert(all[s] == status_line(listed));
    lemma_whole_lines_read(all);
}

/// Whether nothing that a machine is listed with holds a word.
pub open spec fn never_says(p: PeerView, word: Seq<char>) -> bool {
    &&& !has_text(p.host, word)
    &&& !has_text(endpoint_of(p), word)
    &&& !has_text(p.os, word)
    &&& forall|i: int| 0 <= i < p.addresses.len() ==> !has_text(#[trigger] p.addresses[i], word)
    &&& forall|i: int| 0 <= i < p.tags.len() ==> !has_text(#[trigger] p.tags[i], word)
}

/// Whether a text holds no `a` before a `y`, and so not the word either.
spec fn no_ay(s: Seq<char>) -> bool {
    forall|i: int| 0 <= i < s.len() - 1 ==> !(#[trigger] s[i] == 'a' && s[i + 1] == 'y')
}

proof fn lemma_no_ay(s: Seq<char>)
    requires
        no_ay(s),
    ensures
        !has_text(s, "relayed"@),
{
    reveal_strlit("relayed");
    if has_text(s, "relayed"@) {
        let at = choose|at: int| occurs_at(s, "relayed"@, at);
        let found = s.subrange(at, at + 7);
        assert(found[3] == s[at + 3] && found[4] == s[at + 4]);
    }
}

/// A label that ends with a space and a value hold the word only where one does.
proof fn lemma_label_never_says(label: Seq<char>, value: Seq<char>)
    requires
        label.len() > 0,
        label.last() == ' ',
        no_ay(label),
        !has_text(value, "relayed"@),
    ensures
        !has_text(label + value, "relayed"@),
{
    lemma_no_ay(label);
    reveal_strlit("relayed");
    if has_text(label + value, "relayed"@) {
        lemma_stands_in_one(label, value, "relayed"@);
    }
}

proof fn lemma_joined_never_says(parts: Seq<Seq<char>>)
    requires
        forall|i: int| 0 <= i < parts.len() ==> !has_text(#[trigger] parts[i], "relayed"@),
    ensures
        !has_text(joined(parts, ", "@), "relayed"@),
    decreases parts.len(),
{
    reveal_strlit("relayed");
    reveal_strlit(", ");
    let all = joined(parts, ", "@);
    if parts.len() == 0 {
        lemma_no_ay(all);
    } else if parts.len() > 1 {
        let front = parts.drop_last();
        assert forall|i: int| 0 <= i < front.len() implies !has_text(
            #[trigger] front[i],
            "relayed"@,
        ) by {
            assert(front[i] == parts[i]);
        }
        lemma_joined_never_says(front);
        assert(!has_text(parts[parts.len() - 1], "relayed"@));
        let before = joined(front, ", "@);
        lemma_label_never_says(", "@, parts.last());
        if has_text(all, "relayed"@) {
            assert(all =~= before + (", "@ + parts.last()));
            lemma_tail_never_says(before, ", "@ + parts.last());
        }
    }
}

/// The same of a text and one that begins with a character the word lacks.
proof fn lemma_tail_never_says(a: Seq<char>, b: Seq<char>)
    requires
        b.len() > 0,
        b[0] == ',' || b[0] == ' ',
        !has_text(a, "relayed"@),
        !has_text(b, "relayed"@),
    ensures
        !has_text(a + b, "relayed"@),
{
    reveal_strlit("relayed");
    if has_text(a + b, "relayed"@) {
        let hay = a + b;
        let at = choose|at: int| occurs_at(hay, "relayed"@, at);
        let found = hay.subrange(at, at + 7);
        if at + 7 <= a.len() {
            assert(a.subrange(at, at + 7) =~= found);
            assert(occurs_at(a, "relayed"@, at));
        } else if at >= a.len() {
            assert(b.subrange(at - a.len(), at - a.len() + 7) =~= found);
            assert(occurs_at(b, "relayed"@, at - a.len()));
        } else {
            assert(found[a.len() - at] == b[0]);
        }
    }
}

proof fn lemma_entry_never_says(p: PeerView)
    requires
        never_says(p, "relayed"@),
    ensures
        forall|i: int|
            0 <= i < entry_lines(p).len() ==> !has_text(
                #[trigger] entry_lines(p)[i],
                "relayed"@,
            ),
{
    reveal_strlit("- ");
    reveal_strlit("  address: ");
    reveal_strlit("  ip: ");
    reveal_strlit("  os: ");
    reveal_strlit("  tags: ");
    reveal_strlit("  online: ");
    reveal_strlit("yes");
    reveal_strlit("no");
    reveal_strlit("  check: rocm remote doctor ");
    lemma_no_ay(seq![]);
    lemma_no_ay("yes"@);
    lemma_no_ay("no"@);
    lemma_joined_never_says(p.addresses);
    lemma_joined_never_says(p.tags);
    lemma_label_never_says("- "@, p.host);
    lemma_label_never_says("  address: "@, endpoint_of(p));
    lemma_label_never_says("  ip: "@, joined(p.addresses, ", "@));
    lemma_label_never_says("  os: "@, p.os);
    lemma_label_never_says("  tags: "@, joined(p.tags, ", "@));
    lemma_label_never_says("  online: "@, "yes"@);
    lemma_label_never_says("  online: "@, "no"@);
    lemma_label_never_says("  check: rocm remote doctor "@, p.host);
}

proof fn lemma_all_entries_never_say(listed: Seq<PeerView>)
    requires
        forall|i: int| 0 <= i < listed.len() ==> never_says(#[trigger] listed[i], "relayed"@),
    ensures
        forall|i: int|
            0 <= i < all_entry_lines(listed).len() ==> !has_text(
                #[trigger] all_entry_lines(listed)[i],
                "relayed"@,
            ),
    decreases listed.len(),
{
    if listed.len() > 0 {
        let front = listed.drop_last();
        assert forall|i: int| 0 <= i < front.len() implies never_says(
            #[trigger] front[i],
            "relayed"@,
        ) by {
            assert(front[i] == listed[i]);
        }
        lemma_all_entries_never_say(front);
        assert(never_says(listed[listed.len() - 1], "relayed"@));
        lemma_entry_never_says(listed.last());
        let all = all_entry_lines(listed);
        assert forall|i: int| 0 <= i < all.len() implies !has_text(#[trigger] all[i], "relayed"@) by {
            if i < all_entry_lines(front).len() {
                assert(all[i] == all_entry_lines(front)[i]);
            } else {
                assert(all[i] == entry_lines(listed.last())[i - all_entry_lines(front).len()]);
            }
        }
    }
}

proof fn lemma_dec_has_no_y(n: nat)
    ensures
        forall|i: int| 0 <= i < dec(n).len() ==> dec(n)[i] != 'y',
    decreases n,
{
    if n >= 10 {
        let before = dec(n / 10);
        lemma_dec_has_no_y(n / 10);
        assert forall|i: int| 0 <= i < dec(n).len() implies dec(n)[i] != 'y' by {
            if i < before.len() {
                assert(dec(n)[i] == before[i]);
            } else {
                assert(dec(n)[i] == digit(n % 10));
            }
        }
    }
}

proof fn lemma_head_never_says(status: StatusView, listed: Seq<PeerView>)
    requires
        status.this_machine matches Some(m) ==> !has_text(m.host, "relayed"@),
    ensures
        forall|i: int|
            0 <= i < head_lines(status, listed).len() ==> !has_text(
                #[trigger] head_lines(status, listed)[i],
                "relayed"@,
            ),
{
    reveal_strlit("Remote Targets");
    reveal_strlit("This machine: ");
    reveal_strlit("Status: ");
    reveal_strlit(" online, ");
    reveal_strlit(" offline");
    lemma_no_ay("Remote Targets"@);
    lemma_no_ay(seq![]);
    if let Some(m) = status.this_machine {
        lemma_label_never_says("This machine: "@, m.host);
    }
    lemma_dec_has_no_y(online_count(listed));
    lemma_dec_has_no_y((listed.len() - online_count(listed)) as nat);
    let counts = status_line(listed);
    assert forall|i: int| 0 <= i < counts.len() implies counts[i] != 'y' by {
        let a = "Status: "@;
        let b = dec(online_count(listed));
        let c = " online, "@;
        let d = dec((listed.len() - online_count(listed)) as nat);
        if i < a.len() {
            assert(counts[i] == a[i]);
        } else if i < a.len() + b.len() {
            assert(counts[i] == b[i - a.len()]);
        } else if i < a.len() + b.len() + c.len() {
            assert(counts[i] == c[i - a.len() - b.len()]);
        } else if i < a.len() + b.len() + c.len() + d.len() {
            assert(counts[i] == d[i - a.len() - b.len() - c.len()]);
        } else {
            assert(counts[i] == " offline"@[i - a.len() - b.len() - c.len() - d.len()]);
        }
    }
    lemma_no_ay(counts);
}

proof fn lemma_foot_never_says(tag: Option<Seq<char>>)
    ensures
        forall|i: int|
            0 <= i < foot_lines(false, tag).len() ==> !has_text(
                #[trigger] foot_lines(false, tag)[i],
                "relayed"@,
            ),
{
    reveal_strlit(
        "Listed machines are reachable on the tailnet. That does not mean they have a GPU,",
    );
    reveal_strlit("ROCm, or the ROCm CLI — run `rocm remote doctor <machine>` to find out.");
    reveal_strlit("Narrow this list with `--tag <tag>` once your tailnet tags its GPU machines.");
    lemma_no_ay(seq![]);
    lemma_no_ay(
        "Listed machines are reachable on the tailnet. That does not mean they have a GPU,"@,
    );
    lemma_no_ay("ROCm, or the ROCm CLI — run `rocm remote doctor <machine>` to find out."@);
    lemma_no_ay("Narrow this list with `--tag <tag>` once your tailnet tags its GPU machines."@);
}

proof fn lemma_relayed_is_said(status: StatusView, tag: Option<Seq<char>>)
    requires
        selection(status.peers, tag).len() > 0,
        status.userspace_networking,
    ensures
        has_text(targets_text(status, tag), "relayed"@),
{
    let listed = selection(status.peers, tag);
    let all = target_lines(status, tag);
    let k = head_lines(status, listed).len() + all_entry_lines(listed).len() + 2;
    let said = relay_lines()[1];
    assert(all[k as int] == said);
    lemma_whole_lines_hold(all, k as int);
    let text = targets_text(status, tag);
    let at = choose|at: int| occurs_at(text, said, at);
    reveal_strlit("machines is relayed rather than sent directly, which limits throughput.");
    reveal_strlit("relayed");
    assert(text.subrange(at + 12, at + 19) =~= text.subrange(at, at + said.len()).subrange(12, 19));
    assert(said.subrange(12, 19) =~= "relayed"@);
    assert(occurs_at(text, "relayed"@, at + 12));
}

/// A line that ends with what holds a word holds it, and so does the whole text.
proof fn lemma_said_in_a_line(list: Seq<Seq<char>>, k: int, label: Seq<char>, value: Seq<char>)
    requires
        0 <= k < list.len(),
        list[k] == label + value,
        has_text(value, "relayed"@),
    ensures
        has_text(whole_lines(list), "relayed"@),
{
    let none: Seq<char> = seq![];
    lemma_whole_lines_hold(list, k);
    assert(list[k] =~= label + value + none);
    lemma_stands_within(label, value, none, "relayed"@);
    lemma_stands_in_what_it_stands_in(whole_lines(list), list[k], "relayed"@);
}

/// What a machine is listed with is said in a line of its entry.
proof fn lemma_entry_says(p: PeerView) -> (k: int)
    requires
        !never_says(p, "relayed"@),
    ensures
        0 <= k < entry_lines(p).len(),
        has_text(entry_lines(p)[k], "relayed"@),
{
    let none: Seq<char> = seq![];
    let all = entry_lines(p);
    let word = "relayed"@;
    let ip: int = if p.addresses.len() > 0 {
        1
    } else {
        0
    };
    let os: int = if p.os.len() > 0 {
        1
    } else {
        0
    };
    reveal_strlit("relayed");
    if has_text(p.host, word) {
        assert(all[0] =~= "- "@ + p.host + none);
        lemma_stands_within("- "@, p.host, none, word);
        0
    } else if has_text(endpoint_of(p), word) {
        assert(all[1] =~= "  address: "@ + endpoint_of(p) + none);
        lemma_stands_within("  address: "@, endpoint_of(p), none, word);
        1
    } else if has_text(p.os, word) {
        let at = choose|at: int| occurs_at(p.os, word, at);
        assert(p.os.len() > 0);
        assert(all[2 + ip] =~= "  os: "@ + p.os + none);
        lemma_stands_within("  os: "@, p.os, none, word);
        2 + ip
    } else if exists|i: int|
        0 <= i < p.addresses.len() && has_text(#[trigger] p.addresses[i], word) {
        let i = choose|i: int|
            0 <= i < p.addresses.len() && has_text(#[trigger] p.addresses[i], word);
        let value = joined(p.addresses, ", "@);
        lemma_joined_hold(p.addresses, ", "@, i);
        lemma_stands_in_what_it_stands_in(value, p.addresses[i], word);
        assert(all[2] =~= "  ip: "@ + value + none);
        lemma_stands_within("  ip: "@, value, none, word);
        2
    } else {
        let i = choose|i: int| 0 <= i < p.tags.len() && has_text(#[trigger] p.tags[i], word);
        let value = joined(p.tags, ", "@);
        lemma_joined_hold(p.tags, ", "@, i);
        lemma_stands_in_what_it_stands_in(value, p.tags[i], word);
        assert(all[2 + ip + os] =~= "  tags: "@ + value + none);
        lemma_stands_within("  tags: "@, value, none, word);
        2 + ip + os
    }
}

proof fn lemma_entries_hold(listed: Seq<PeerView>, i: int, k: int) -> (at: int)
    requires
        0 <= i < listed.len(),
        0 <= k < entry_lines(listed[i]).len(),
    ensures
        0 <= at < all_entry_lines(listed).len(),
        all_entry_lines(listed)[at] == entry_lines(listed[i])[k],
    decreases listed.len(),
{
    let front = listed.drop_last();
    if i == listed.len() - 1 {
        all_entry_lines(front).len() + k
    } else {
        assert(front[i] == listed[i]);
        lemma_entries_hold(front, i, k)
    }
}

/// A listing that has machines says that traffic to them is relayed exactly where
/// it is. The word stands in it besides only where a machine goes by it.
pub proof fn law_relayed_traffic_is_said(status: StatusView, tag: Option<Seq<char>>)
    requires
        selection(status.peers, tag).len() > 0,
    ensures
        ({
            let listed = selection(status.peers, tag);
            has_text(targets_text(status, tag), "relayed"@) <==> {
                ||| status.userspace_networking
                ||| status.this_machine matches Some(m) && has_text(m.host, "relayed"@)
                ||| exists|i: int|
                    0 <= i < listed.len() && !never_says(#[trigger] listed[i], "relayed"@)
            }
        }),
{
    let listed = selection(status.peers, tag);
    let all = target_lines(status, tag);
    let (head, entries) = (head_lines(status, listed), all_entry_lines(listed));
    let foot = foot_lines(false, tag);
    let named = status.this_machine is Some && has_text(
        status.this_machine->0.host,
        "relayed"@,
    );
    if status.userspace_networking {
        lemma_relayed_is_said(status, tag);
    } else if named {
        let m = status.this_machine->0;
        assert(all[2] == head[2]);
        lemma_said_in_a_line(all, 2, "This machine: "@, m.host);
    } else if exists|i: int|
        0 <= i < listed.len() && !never_says(#[trigger] listed[i], "relayed"@) {
        let i = choose|i: int|
            0 <= i < listed.len() && !never_says(#[trigger] listed[i], "relayed"@);
        let k = lemma_entry_says(listed[i]);
        let at = lemma_entries_hold(listed, i, k);
        let none: Seq<char> = seq![];
        assert(all[head.len() + at] == entries[at]);
        assert(entries[at] =~= none + entries[at]);
        lemma_said_in_a_line(all, head.len() + at, none, entries[at]);
    } else if has_text(targets_text(status, tag), "relayed"@) {
        lemma_head_never_says(status, listed);
        lemma_all_entries_never_say(listed);
        lemma_foot_never_says(tag);
        reveal_strlit("relayed");
        lemma_stands_in_a_line(all, "relayed"@);
        let k = choose|k: int| 0 <= k < all.len() && has_text(#[trigger] all[k], "relayed"@);
        if k < head.len() {
            assert(all[k] == head[k]);
        } else if k < head.len() + entries.len() {
            assert(all[k] == entries[k - head.len()]);
        } else {
            assert(all[k] == foot[k - head.len() - entries.len()]);
        }
    }
}

proof fn lemma_selection_of_either(peers: Seq<PeerView>, a: Seq<char>, b: Seq<char>)
    requires
        bare_tag(a) == bare_tag(b),
    ensures
        selection(peers, Some(a)) == selection(peers, Some(b)),
    decreases peers.len(),
{
    if peers.len() > 0 {
        lemma_selection_of_either(peers.drop_last(), a, b);
    }
}

/// A tag selects the same machines, and lists them in the same words, with and
/// without the prefix it has on the wire.
pub proof fn law_a_tag_may_be_written_either_way(status: StatusView, tag: Seq<char>)
    requires
        !occurs_at(tag, "tag:"@, 0),
    ensures
        selection(status.peers, Some(tag)) == selection(status.peers, Some("tag:"@ + tag)),
        selection(status.peers, Some(tag)).len() > 0 ==> targets_text(status, Some(tag))
            == targets_text(status, Some("tag:"@ + tag)),
{
    let long = "tag:"@ + tag;
    let n = "tag:"@.len();
    assert(long.subrange(0, n as int) =~= "tag:"@);
    assert(occurs_at(long, "tag:"@, 0));
    assert(long.subrange(n as int, long.len() as int) =~= tag);
    assert(bare_tag(long) == tag);
    lemma_selection_of_either(status.peers, tag, long);
}

/// A listing that a tag leaves empty names the tag.
pub proof fn law_an_empty_listing_names_its_tag(status: StatusView, tag: Seq<char>)
    requires
        selection(status.peers, Some(tag)).len() == 0,
    ensures
        has_text(targets_text(status, Some(tag)), none_listed(Some(tag))),
        has_text(none_listed(Some(tag)), tag),
{
    let all = target_lines(status, Some(tag));
    lemma_whole_lines_hold(all, all.len() - 1);
    lemma_has_text("No tailnet machines are tagged `"@, tag, "`."@);
}

} // verus!
