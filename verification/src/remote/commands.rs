//! What the commands that are sent to a machine tell it.
//!
//! A command is a text that the machine's shell takes apart. What counts is the
//! arguments that the program there is given.

use vstd::prelude::*;
use crate::remote::doctor::examine_line;
use crate::remote::install::{driver_line, sdk_line};
use crate::remote::provision::{archive_word, installer_line, pushed_install_line, version_line};
use crate::remote::publish::{publish_line, status_line, withdraw_line};
use crate::remote::serve::{serve_line, stop_line, url_for, RequestView};
use crate::remote::services::list_line;
use crate::remote::shell::{
    all_inert, and_word, law_a_quoted_value_is_one_literal_word, lemma_inert_concat,
    lemma_inert_dec, lemma_plain_word, lemma_spells, lemma_spells_none, quoted, spells,
};
use crate::text::{dec, ends_with, has_text, lemma_has_text, occurs_at};

verus! {

proof fn lemma_another(rest: Seq<char>, arguments: Seq<Seq<char>>, word: Seq<char>)
    requires
        spells(rest, arguments),
        word.len() > 0,
        all_inert(word),
    ensures
        spells(and_word(rest, word), arguments.push(word)),
{
    lemma_plain_word(word);
    lemma_spells(rest, arguments, word, word);
}

proof fn lemma_another_quoted(rest: Seq<char>, arguments: Seq<Seq<char>>, value: Seq<char>)
    requires
        spells(rest, arguments),
    ensures
        spells(and_word(rest, quoted(value)), arguments.push(value)),
{
    law_a_quoted_value_is_one_literal_word(value);
    lemma_spells(rest, arguments, quoted(value), value);
}

/// What stands before the tool in the command that starts a model: its key is read
/// from standard input, and nothing goes on without one.
pub open spec fn key_first() -> Seq<char> {
    "IFS= read -r ROCM_SERVE_API_KEY && export ROCM_SERVE_API_KEY && "@
}

/// The arguments a model is started with.
pub open spec fn serve_arguments(
    model: Seq<char>,
    port: u16,
    engine: Option<Seq<char>>,
    gpu: Option<Seq<char>>,
) -> Seq<Seq<char>> {
    seq![
        "serve"@,
        model,
        "--managed"@,
        "--require-api-key"@,
        "--host"@,
        "127.0.0.1"@,
        "--port"@,
        dec(port as nat),
    ] + (match engine {
        Some(name) => seq!["--engine"@, name],
        None => seq![],
    }) + (match gpu {
        Some(name) => seq!["--gpu"@, name],
        None => seq![],
    })
}

/// The first words of the arguments a model is started with.
spec fn first_words(model: Seq<char>, port: u16) -> Seq<char> {
    " serve "@ + quoted(model) + " --managed --require-api-key --host "@ + "127.0.0.1"@
        + " --port "@ + dec(port as nat)
}

proof fn lemma_first_three(model: Seq<char>)
    ensures
        spells(" serve "@ + quoted(model) + " --managed"@, seq!["serve"@, model, "--managed"@]),
{
    reveal_strlit("serve");
    reveal_strlit("--managed");
    reveal_strlit(" serve ");
    reveal_strlit(" --managed");
    let none: Seq<char> = seq![];
    let no_words: Seq<Seq<char>> = seq![];
    lemma_spells_none();
    let s1 = and_word(none, "serve"@);
    let a1 = no_words.push("serve"@);
    lemma_another(none, no_words, "serve"@);
    let s2 = and_word(s1, quoted(model));
    let a2 = a1.push(model);
    lemma_another_quoted(s1, a1, model);
    let s3 = and_word(s2, "--managed"@);
    lemma_another(s2, a2, "--managed"@);
    assert(a2.push("--managed"@) =~= seq!["serve"@, model, "--managed"@]);
    assert(s3 =~= " serve "@ + quoted(model) + " --managed"@);
}

proof fn lemma_first_words(model: Seq<char>, port: u16)
    ensures
        spells(first_words(model, port), serve_arguments(model, port, None, None)),
{
    reveal_strlit("--require-api-key");
    reveal_strlit("--host");
    reveal_strlit("127.0.0.1");
    reveal_strlit("--port");
    reveal_strlit(" --managed");
    reveal_strlit(" --managed --require-api-key --host ");
    reveal_strlit(" --port ");
    let digits = dec(port as nat);
    lemma_inert_dec(port as nat);
    lemma_first_three(model);
    let s3 = " serve "@ + quoted(model) + " --managed"@;
    let a3 = seq!["serve"@, model, "--managed"@];
    let s4 = and_word(s3, "--require-api-key"@);
    let a4 = a3.push("--require-api-key"@);
    lemma_another(s3, a3, "--require-api-key"@);
    let s5 = and_word(s4, "--host"@);
    let a5 = a4.push("--host"@);
    lemma_another(s4, a4, "--host"@);
    let s6 = and_word(s5, "127.0.0.1"@);
    let a6 = a5.push("127.0.0.1"@);
    lemma_another(s5, a5, "127.0.0.1"@);
    let s7 = and_word(s6, "--port"@);
    let a7 = a6.push("--port"@);
    lemma_another(s6, a6, "--port"@);
    lemma_another(s7, a7, digits);
    assert(a7.push(digits) =~= serve_arguments(model, port, None, None));
    let head = " serve "@ + quoted(model);
    assert(s5 + seq![' '] =~= head + " --managed --require-api-key --host "@);
    assert(and_word(s7, digits) =~= s5 + seq![' '] + "127.0.0.1"@ + " --port "@ + digits);
    assert(and_word(s7, digits) =~= first_words(model, port));
}

proof fn lemma_option(
    rest: Seq<char>,
    arguments: Seq<Seq<char>>,
    before: Seq<char>,
    flag: Seq<char>,
    value: Seq<char>,
)
    requires
        spells(rest, arguments),
        flag.len() > 0,
        all_inert(flag),
        before == seq![' '] + flag + seq![' '],
    ensures
        spells(rest + before + quoted(value), arguments + seq![flag, value]),
{
    lemma_another(rest, arguments, flag);
    lemma_another_quoted(and_word(rest, flag), arguments.push(flag), value);
    assert(and_word(and_word(rest, flag), quoted(value)) =~= rest + before + quoted(value));
    assert(arguments.push(flag).push(value) =~= arguments + seq![flag, value]);
}

/// The command that starts a model reads the key, and then runs the tool of the
/// machine: to serve the model, managed and only with a key, on the loopback address
/// and the port that the service is looked for on and forwarded from afterwards, with
/// the engine and the card that were asked for, and no others. Whatever the model, the
/// engine and the card are called, each is one argument.
pub proof fn law_a_model_is_started_as_it_was_asked_for(
    remote_cli: Seq<char>,
    request: RequestView,
)
    ensures
        ({
            let line = serve_line(remote_cli, request);
            let before = key_first() + remote_cli;
            &&& occurs_at(line, before, 0)
            &&& spells(
                line.subrange(before.len() as int, line.len() as int),
                serve_arguments(request.model, request.remote_port, request.engine, request.gpu),
            )
        }),
{
    reveal_strlit("--engine");
    reveal_strlit("--gpu");
    reveal_strlit(" --engine ");
    reveal_strlit(" --gpu ");
    let s0 = first_words(request.model, request.remote_port);
    let a0 = serve_arguments(request.model, request.remote_port, None, None);
    lemma_first_words(request.model, request.remote_port);
    let (s1, a1) = match request.engine {
        Some(engine) => {
            assert(" --engine "@ =~= seq![' '] + "--engine"@ + seq![' ']);
            lemma_option(s0, a0, " --engine "@, "--engine"@, engine);
            (s0 + " --engine "@ + quoted(engine), a0 + seq!["--engine"@, engine])
        },
        None => (s0, a0),
    };
    let (s2, a2) = match request.gpu {
        Some(gpu) => {
            assert(" --gpu "@ =~= seq![' '] + "--gpu"@ + seq![' ']);
            lemma_option(s1, a1, " --gpu "@, "--gpu"@, gpu);
            (s1 + " --gpu "@ + quoted(gpu), a1 + seq!["--gpu"@, gpu])
        },
        None => (s1, a1),
    };
    assert(a2 =~= serve_arguments(
        request.model,
        request.remote_port,
        request.engine,
        request.gpu,
    ));
    let before = key_first() + remote_cli;
    let line = serve_line(remote_cli, request);
    lemma_line(remote_cli, request);
    assert(line.subrange(0, before.len() as int) =~= before);
    assert(line.subrange(before.len() as int, line.len() as int) =~= s2);
}

proof fn lemma_line(remote_cli: Seq<char>, request: RequestView)
    ensures
        ({
            let s0 = key_first() + remote_cli + first_words(request.model, request.remote_port);
            let s1 = match request.engine {
                Some(engine) => s0 + " --engine "@ + quoted(engine),
                None => s0,
            };
            serve_line(remote_cli, request) == match request.gpu {
                Some(gpu) => s1 + " --gpu "@ + quoted(gpu),
                None => s1,
            }
        }),
{
    let s0 = key_first() + remote_cli + first_words(request.model, request.remote_port);
    assert(s0 =~= key_first() + remote_cli + " serve "@ + quoted(request.model)
        + " --managed --require-api-key --host "@ + "127.0.0.1"@ + " --port "@ + dec(
        request.remote_port as nat,
    ));
}

/// Where the endpoint is published, where the machine is and how the tool got there
/// make no difference to what is started.
pub proof fn law_starting_a_model_does_not_depend_on_its_endpoint(
    remote_cli: Seq<char>,
    a: RequestView,
    b: RequestView,
)
    requires
        a.model == b.model,
        a.remote_port == b.remote_port,
        a.engine == b.engine,
        a.gpu == b.gpu,
    ensures
        serve_line(remote_cli, a) == serve_line(remote_cli, b),
{
}

/// A model is stopped by its id, as one argument, and without being asked; and the
/// services are listed with the stopped ones, to be read by a program.
pub proof fn law_a_service_is_stopped_by_its_id(remote_cli: Seq<char>, id: Seq<char>)
    ensures
        ({
            let stop = stop_line(remote_cli, id);
            let list = list_line(remote_cli);
            let n = remote_cli.len() as int;
            &&& occurs_at(stop, remote_cli, 0) && occurs_at(list, remote_cli, 0)
            &&& spells(
                stop.subrange(n, stop.len() as int),
                seq!["services"@, "stop"@, id, "--yes"@],
            )
            &&& spells(
                list.subrange(n, list.len() as int),
                seq!["services"@, "list"@, "--json"@, "--all"@],
            )
        }),
{
    reveal_strlit("services");
    reveal_strlit("stop");
    reveal_strlit("--yes");
    reveal_strlit("list");
    reveal_strlit("--json");
    reveal_strlit("--all");
    reveal_strlit(" services stop ");
    reveal_strlit(" --yes");
    reveal_strlit(" services list --json --all");
    let none: Seq<char> = seq![];
    let no_words: Seq<Seq<char>> = seq![];
    lemma_spells_none();
    let s1 = and_word(none, "services"@);
    let a1 = no_words.push("services"@);
    lemma_another(none, no_words, "services"@);
    let s2 = and_word(s1, "stop"@);
    let a2 = a1.push("stop"@);
    lemma_another(s1, a1, "stop"@);
    let s3 = and_word(s2, quoted(id));
    let a3 = a2.push(id);
    lemma_another_quoted(s2, a2, id);
    let s4 = and_word(s3, "--yes"@);
    lemma_another(s3, a3, "--yes"@);
    assert(a3.push("--yes"@) =~= seq!["services"@, "stop"@, id, "--yes"@]);
    assert(stop_line(remote_cli, id) =~= remote_cli + s4);
    let l2 = and_word(s1, "list"@);
    let b2 = a1.push("list"@);
    lemma_another(s1, a1, "list"@);
    let l3 = and_word(l2, "--json"@);
    let b3 = b2.push("--json"@);
    lemma_another(l2, b2, "--json"@);
    let l4 = and_word(l3, "--all"@);
    lemma_another(l3, b3, "--all"@);
    assert(b3.push("--all"@) =~= seq!["services"@, "list"@, "--json"@, "--all"@]);
    assert(list_line(remote_cli) =~= remote_cli + l4);
    let stop = stop_line(remote_cli, id);
    let list = list_line(remote_cli);
    let n = remote_cli.len() as int;
    assert(stop.subrange(0, n) =~= remote_cli && list.subrange(0, n) =~= remote_cli);
    assert(stop.subrange(n, stop.len() as int) =~= s4);
    assert(list.subrange(n, list.len() as int) =~= l4);
}

/// A forward is declared to outlive the command, from the tailnet port to the
/// loopback address and the port that the model was started on; it is taken down by
/// its tailnet port alone; and what is forwarded is asked for to be read by a program.
pub proof fn law_a_forward_goes_from_the_tailnet_port_to_the_models(
    tailnet_port: u16,
    remote_port: u16,
)
    ensures
        spells(
            " "@ + publish_line(tailnet_port, remote_port),
            seq![
                "tailscale"@,
                "serve"@,
                "--bg"@,
                "--tcp="@ + dec(tailnet_port as nat),
                "tcp://127.0.0.1:"@ + dec(remote_port as nat),
            ],
        ),
        spells(
            " "@ + withdraw_line(tailnet_port),
            seq!["tailscale"@, "serve"@, "--tcp="@ + dec(tailnet_port as nat), "off"@],
        ),
        spells(" "@ + status_line(), seq!["tailscale"@, "serve"@, "status"@, "--json"@]),
{
    reveal_strlit(" ");
    reveal_strlit(":");
    reveal_strlit("tailscale");
    reveal_strlit("serve");
    reveal_strlit("status");
    reveal_strlit("--json");
    reveal_strlit("--bg");
    reveal_strlit("--tcp=");
    reveal_strlit("off");
    reveal_strlit(" off");
    reveal_strlit("127.0.0.1");
    reveal_strlit("tcp://127.0.0.1:");
    reveal_strlit(" tcp://");
    reveal_strlit("tailscale serve --bg --tcp=");
    reveal_strlit("tailscale serve --tcp=");
    reveal_strlit("tailscale serve status --json");
    let none: Seq<char> = seq![];
    let no_words: Seq<Seq<char>> = seq![];
    let from = "--tcp="@ + dec(tailnet_port as nat);
    let to = "tcp://127.0.0.1:"@ + dec(remote_port as nat);
    lemma_inert_dec(tailnet_port as nat);
    lemma_inert_dec(remote_port as nat);
    lemma_inert_concat("--tcp="@, dec(tailnet_port as nat));
    lemma_inert_concat("tcp://127.0.0.1:"@, dec(remote_port as nat));
    lemma_spells_none();
    let s1 = and_word(none, "tailscale"@);
    let a1 = no_words.push("tailscale"@);
    lemma_another(none, no_words, "tailscale"@);
    let s2 = and_word(s1, "serve"@);
    let a2 = a1.push("serve"@);
    lemma_another(s1, a1, "serve"@);
    let s3 = and_word(s2, "--bg"@);
    let a3 = a2.push("--bg"@);
    lemma_another(s2, a2, "--bg"@);
    let s4 = and_word(s3, from);
    let a4 = a3.push(from);
    lemma_another(s3, a3, from);
    lemma_another(s4, a4, to);
    assert(a4.push(to) =~= seq!["tailscale"@, "serve"@, "--bg"@, from, to]);
    assert(and_word(s4, to) =~= " "@ + publish_line(tailnet_port, remote_port));
    let w3 = and_word(s2, from);
    let b3 = a2.push(from);
    lemma_another(s2, a2, from);
    lemma_another(w3, b3, "off"@);
    assert(b3.push("off"@) =~= seq!["tailscale"@, "serve"@, from, "off"@]);
    assert(and_word(w3, "off"@) =~= " "@ + withdraw_line(tailnet_port));
    let t3 = and_word(s2, "status"@);
    let c3 = a2.push("status"@);
    lemma_another(s2, a2, "status"@);
    lemma_another(t3, c3, "--json"@);
    assert(c3.push("--json"@) =~= seq!["tailscale"@, "serve"@, "status"@, "--json"@]);
    assert(and_word(t3, "--json"@) =~= " "@ + status_line());
}

/// The address that a model is called at names the machine and the tailnet port.
pub proof fn law_an_address_names_the_machine_and_the_tailnet_port(
    peer_host: Seq<char>,
    tailnet_port: u16,
)
    ensures
        url_for(peer_host, tailnet_port) == "http://"@ + (peer_host + (":"@ + (dec(
            tailnet_port as nat,
        ) + "/v1"@))),
{
    assert(url_for(peer_host, tailnet_port) =~= "http://"@ + (peer_host + (":"@ + (dec(
        tailnet_port as nat,
    ) + "/v1"@))));
}

/// The tool of a machine is asked for its version, for what the machine says of
/// itself, and to install the driver and the SDK without being asked; and whether
/// administrator rights can be had is found out without a prompt.
pub proof fn law_the_tool_is_asked_by_name(cli: Seq<char>)
    ensures
        ({
            let n = cli.len() as int;
            let tail = |line: Seq<char>| line.subrange(n, line.len() as int);
            &&& occurs_at(version_line(cli), cli, 0) && spells(
                tail(version_line(cli)),
                seq!["--version"@],
            )
            &&& occurs_at(examine_line(cli), cli, 0) && spells(
                tail(examine_line(cli)),
                seq!["examine"@, "--json"@],
            )
            &&& occurs_at(driver_line(cli), cli, 0) && spells(
                tail(driver_line(cli)),
                seq!["install"@, "driver"@, "--yes"@],
            )
            &&& occurs_at(sdk_line(cli), cli, 0) && spells(
                tail(sdk_line(cli)),
                seq!["install"@, "sdk"@, "--yes"@],
            )
        }),
{
    reveal_strlit("--version");
    reveal_strlit("examine");
    reveal_strlit("--json");
    reveal_strlit("install");
    reveal_strlit("driver");
    reveal_strlit("sdk");
    reveal_strlit("--yes");
    reveal_strlit(" --version");
    reveal_strlit(" examine --json");
    reveal_strlit(" install driver --yes");
    reveal_strlit(" install sdk --yes");
    let n = cli.len() as int;
    let none: Seq<char> = seq![];
    let no_words: Seq<Seq<char>> = seq![];
    lemma_spells_none();
    lemma_another(none, no_words, "--version"@);
    assert(no_words.push("--version"@) =~= seq!["--version"@]);
    assert(and_word(none, "--version"@) =~= " --version"@);
    let v = version_line(cli);
    assert(v.subrange(0, n) =~= cli && v.subrange(n, v.len() as int) =~= " --version"@);
    lemma_another(none, no_words, "examine"@);
    lemma_another(and_word(none, "examine"@), no_words.push("examine"@), "--json"@);
    assert(no_words.push("examine"@).push("--json"@) =~= seq!["examine"@, "--json"@]);
    assert(and_word(and_word(none, "examine"@), "--json"@) =~= " examine --json"@);
    let e = examine_line(cli);
    assert(e.subrange(0, n) =~= cli && e.subrange(n, e.len() as int) =~= " examine --json"@);
    let s1 = and_word(none, "install"@);
    let a1 = no_words.push("install"@);
    lemma_another(none, no_words, "install"@);
    lemma_another(s1, a1, "driver"@);
    lemma_another(and_word(s1, "driver"@), a1.push("driver"@), "--yes"@);
    assert(a1.push("driver"@).push("--yes"@) =~= seq!["install"@, "driver"@, "--yes"@]);
    assert(and_word(and_word(s1, "driver"@), "--yes"@) =~= " install driver --yes"@);
    let d = driver_line(cli);
    assert(d.subrange(0, n) =~= cli && d.subrange(n, d.len() as int) =~= " install driver --yes"@);
    lemma_another(s1, a1, "sdk"@);
    lemma_another(and_word(s1, "sdk"@), a1.push("sdk"@), "--yes"@);
    assert(a1.push("sdk"@).push("--yes"@) =~= seq!["install"@, "sdk"@, "--yes"@]);
    assert(and_word(and_word(s1, "sdk"@), "--yes"@) =~= " install sdk --yes"@);
    let s = sdk_line(cli);
    assert(s.subrange(0, n) =~= cli && s.subrange(n, s.len() as int) =~= " install sdk --yes"@);
}

/// The machine gets the installer from where the project keeps it, and is told the
/// channel as one argument; and a build that was pushed is installed by the installer
/// that was pushed with it, for that channel.
pub proof fn law_a_machine_installs_from_the_channel(
    channel: Seq<char>,
    signing: Seq<char>,
    asset: Seq<char>,
)
    ensures
        occurs_at(
            installer_line(channel),
            "curl -fsSL https://raw.githubusercontent.com/ROCm/rocm-cli/main/install.sh | sh "@,
            0,
        ),
        ends_with(installer_line(channel), " | sh -s -- "@ + quoted(channel)),
        occurs_at(pushed_install_line(signing, asset, channel), signing + "ROCM_CLI_ARCHIVE="@, 0),
        has_text(
            pushed_install_line(signing, asset, channel),
            "ROCM_CLI_ARCHIVE="@ + archive_word(asset) + " sh "@,
        ),
        ends_with(
            pushed_install_line(signing, asset, channel),
            " sh $HOME/.rocm/provision/install.sh "@ + quoted(channel),
        ),
{
    reveal_strlit("curl -fsSL ");
    reveal_strlit("https://raw.githubusercontent.com/ROCm/rocm-cli/main/install.sh");
    reveal_strlit(" | sh -s -- ");
    reveal_strlit(
        "curl -fsSL https://raw.githubusercontent.com/ROCm/rocm-cli/main/install.sh | sh ",
    );
    reveal_strlit("ROCM_CLI_ARCHIVE=");
    reveal_strlit("$HOME/.rocm/provision");
    reveal_strlit("/install.sh ");
    reveal_strlit(" sh ");
    reveal_strlit(" sh $HOME/.rocm/provision/install.sh ");
    let line = installer_line(channel);
    let lead = "curl -fsSL https://raw.githubusercontent.com/ROCm/rocm-cli/main/install.sh | sh "@;
    assert(line.subrange(0, lead.len() as int) =~= lead);
    let tail = " | sh -s -- "@ + quoted(channel);
    assert(line.subrange(line.len() - tail.len(), line.len() as int) =~= tail);
    let pushed = pushed_install_line(signing, asset, channel);
    let first = signing + "ROCM_CLI_ARCHIVE="@;
    assert(pushed.subrange(0, first.len() as int) =~= first);
    let middle = "ROCM_CLI_ARCHIVE="@ + archive_word(asset) + " sh "@;
    let rest = "$HOME/.rocm/provision"@ + "/install.sh "@ + quoted(channel);
    assert(pushed =~= signing + middle + rest);
    lemma_has_text(signing, middle, rest);
    let end = " sh $HOME/.rocm/provision/install.sh "@ + quoted(channel);
    assert(pushed.subrange(pushed.len() - end.len(), pushed.len() as int) =~= end);
}

} // verus!
