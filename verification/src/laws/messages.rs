//! What is said of interfaces, faults and files, and what becomes of a packet on its way.

use vstd::prelude::*;

use crate::capture::interfaces::{
    failure_text, interface_entries, interface_list, Device, InterfaceLabelOrder, InterfaceView,
    SelectFailure,
};
use crate::capture::parser::{
    domain_found, domain_given, format_of, frame_outcome, key_of, may_say, signed_decimal,
    PacketDisposition, PacketFormat, UnsupportedLink,
};
use crate::capture::source::{disposition_of, packet_result, result_of, PendingCaptureItem};
use crate::capture::Flow;
use crate::diagnostics::stamped;
use crate::domain_parse::DomainParser;
use crate::flow_table::{attempt_noted, FlowKey, FlowKnowledge};
use crate::net::IpAddr;
use crate::palette::{resolved_theme, theme_label, BuiltinTheme, Theme, ThemeSelection};
use crate::pipeline::{after_read_matches, announcement_matches, AfterRead, PipelineError, PipelineFault};
use crate::process_name::{
    component_end, file_name, last_component, PathRules, PathStyle,
};
use crate::refcap::{address_list, device_text, selector_fault};
use crate::report::host_name;
use crate::scan::trimmed;
use crate::session::{error_text, SessionError};
use crate::text::{decimal, text_view, utf8_text};

verus! {

/// The list of interfaces has a heading, the interfaces, and a note on how to choose one.
pub proof fn lemma_interface_list(interfaces: Seq<InterfaceView>, order: InterfaceLabelOrder)
    ensures
        interface_list(interfaces, order) == "Available interfaces:\n"@ + interface_entries(
            interfaces,
            order,
        ) + "\nUsage: flowlens <interface-or-number> [OPTIONS]\n"@
            + "Run flowlens --help for full usage\n"@,
{
}

/// A selector that selects nothing is named in the message, with the numbers to choose from
/// where there are any.
pub proof fn lemma_selector_faults_in_words(selector: Seq<char>, count: usize)
    ensures
        failure_text(selector, SelectFailure::NotFound) == "Interface not found: "@ + selector,
        failure_text(selector, SelectFailure::NoInterfaces) == "Invalid interface number: "@
            + selector + " (no interfaces available)"@,
        failure_text(selector, SelectFailure::OutOfRange { count }) == "Invalid interface number: "@
            + selector + " (choose 1-"@ + decimal(count as nat) + ")"@,
        selector_fault(selector, SelectFailure::NotFound) == "interface not found: "@ + selector,
        selector_fault(selector, SelectFailure::NoInterfaces) == "invalid interface number: "@
            + selector,
        selector_fault(selector, SelectFailure::OutOfRange { count })
            == "invalid interface number: "@ + selector,
{
    reveal_strlit(")");
    assert(failure_text(selector, SelectFailure::OutOfRange { count })
        =~= "Invalid interface number: "@ + selector + " (choose 1-"@ + decimal(count as nat)
        + ")"@);
}

/// A change of the interface that cannot be made says why.
pub proof fn lemma_session_faults_in_words(message: String)
    ensures
        error_text(SessionError::AlreadyPending)
            == "an interface activation is already in progress"@,
        error_text(SessionError::WorkerGone) == "interface activation worker stopped unexpectedly"@,
        error_text(SessionError::Failed(message)) == message@,
{
}

/// A line on a device shows, between tabs, its number, its name, its description and its
/// addresses.
pub proof fn lemma_device_lines(number: nat, device: Device)
    ensures
        device_text(number, device) == decimal(number) + seq!['\t'] + device.name@ + seq!['\t'] + (
        match device.desc {
            Some(description) => description@,
            None => Seq::<char>::empty(),
        }) + seq!['\t'] + address_list(device.addresses@),
{
}

/// A negative number has a minus sign, and no other has one.
pub proof fn lemma_signed_numerals(value: nat)
    ensures
        signed_decimal(value as int) == decimal(value),
        value > 0 ==> signed_decimal(-value) == seq!['-'] + decimal(value),
{
}

/// The name of a file or a run holds its time and the number of the process.
pub proof fn lemma_stamped_names(start: Seq<char>, stamp: Seq<char>, pid: u32, end: Seq<char>)
    ensures
        stamped(start, stamp, pid, end) == start + stamp + "-"@ + decimal(pid as nat) + end,
{
    reveal_strlit("-");
    assert(stamped(start, stamp, pid, end) =~= start + stamp + "-"@ + decimal(pid as nat) + end);
}

/// The host is called what the system prints for it, without the blanks around, or `unknown` if
/// that cannot be read.
pub proof fn lemma_host_is_called_what_the_system_says(output: Seq<u8>)
    ensures
        utf8_text(output) matches Some(name) ==> host_name(Some(output)) == trimmed(name),
        utf8_text(output) is None ==> host_name(Some(output)) == "unknown"@,
        host_name(None) == "unknown"@,
{
}

/// A frame of a link that is not known is an error and teaches nothing; one that is not
/// accepted is passed over and teaches nothing. An accepted one is handed on as the flow that
/// it shows, with the host name that is found.
pub proof fn lemma_what_becomes_of_a_frame<P: DomainParser>(
    parser: P,
    link_type: i32,
    data: Seq<u8>,
    local_ips: Seq<IpAddr>,
    before: Map<FlowKey, FlowKnowledge>,
    item: PendingCaptureItem,
    after: Map<FlowKey, FlowKnowledge>,
    format: PacketFormat,
)
    requires
        packet_result(parser, link_type, data, local_ips, before, item, after),
    ensures
        format_of(link_type) is None ==> {
            &&& item == PendingCaptureItem::Error(UnsupportedLink(link_type))
            &&& after == before
            &&& disposition_of(link_type, data, local_ips) == PacketDisposition::ParseError
        },
        format_of(link_type) == Some(format) ==> {
            let outcome = frame_outcome(format, data, local_ips);
            &&& disposition_of(link_type, data, local_ips) == outcome.disposition
            &&& outcome.parsed is None ==> item == PendingCaptureItem::Ignored && after == before
            &&& outcome.parsed matches Some((flow, payload)) ==> {
                &&& item matches PendingCaptureItem::Flow(found)
                &&& found.direction == flow.direction
                &&& found.peer == flow.peer
                &&& found.peer_port == flow.peer_port
                &&& found.bytes == flow.bytes
                &&& found.local_socket == flow.local_socket
                &&& found.peer_local_socket == flow.peer_local_socket
                &&& domain_found(parser, before, flow, payload, text_view(found.domain), after)
            }
        },
{
}

/// What is handed on of a packet is its flow, nothing, or its error.
pub proof fn lemma_items_stand_for_results(flow: Flow, error: UnsupportedLink)
    ensures
        result_of(PendingCaptureItem::Flow(flow)) == Ok::<Option<Flow>, UnsupportedLink>(Some(flow)),
        result_of(PendingCaptureItem::Ignored) == Ok::<Option<Flow>, UnsupportedLink>(None),
        result_of(PendingCaptureItem::Error(error)) == Err::<Option<Flow>, UnsupportedLink>(error),
{
}

/// The host name of a packet is found with what was last learned of its connection, or with
/// nothing.
pub proof fn lemma_names_are_found_with_what_was_learned<P: DomainParser>(
    parser: P,
    before: Map<FlowKey, FlowKnowledge>,
    flow: Flow,
    payload: Option<Seq<u8>>,
    domain: Option<Seq<char>>,
    after: Map<FlowKey, FlowKnowledge>,
) -> (said: Option<FlowKnowledge>)
    requires
        domain_found(parser, before, flow, payload, domain, after),
    ensures
        domain_given(parser, before, said, flow, payload, domain, after),
        said matches Some(knowledge) ==> (key_of(flow) matches Some(key) && before.contains_key(key)
            && before[key] == knowledge),
{
    match key_of(flow) {
        None => None,
        Some(key) => choose|said: Option<FlowKnowledge>|
            #[trigger] may_say(before, key, said) && domain_given(
                parser,
                before,
                said,
                flow,
                payload,
                domain,
                after,
            ),
    }
}

/// A failed attempt is noted only of a connection of which failed attempts are known; it counts
/// one more, up to three, and touches no other connection.
pub proof fn lemma_failed_attempts_are_noted(
    before: Map<FlowKey, FlowKnowledge>,
    key: FlowKey,
    after: Map<FlowKey, FlowKnowledge>,
    other: FlowKey,
)
    requires
        attempt_noted(before, key, after),
    ensures
        before.contains_key(key) && before[key] is NoDomain,
        ({
            let was = before[key]->attempts;
            after.contains_key(key) && after[key] == (FlowKnowledge::NoDomain {
                attempts: if was < 3 {
                    (was + 1) as u8
                } else {
                    3
                },
            })
        }),
        other != key ==> after.contains_key(other) == before.contains_key(other) && after[other]
            == before[other],
{
}

/// A read without a flow is followed by the next one, a flow is handed on, and a failure ends
/// the reading with its message. The first result, and no later one, is announced.
pub proof fn lemma_what_follows_a_read(
    result: Result<Option<Flow>, String>,
    next: AfterRead,
    announced: bool,
    announcement: Option<Result<(), PipelineError>>,
)
    requires
        after_read_matches(result, next),
        announcement_matches(announced, result, announcement),
    ensures
        result matches Ok(None) ==> next is Read,
        result matches Ok(Some(flow)) ==> next == AfterRead::HandOn(flow),
        result matches Err(message) ==> (next matches AfterRead::Fail(error) && error@
            == PipelineFault::Capture(message@)),
        announced ==> announcement is None,
        !announced && result is Ok ==> announcement == Some(Ok::<(), PipelineError>(())),
        !announced ==> (result matches Err(message) ==> (announcement matches Some(Err(error))
            && error@ == PipelineFault::Capture(message@))),
{
}

/// The theme that is shown is the fitting one, the one of the name, or that of the file, as
/// selected.
pub proof fn lemma_selected_theme_is_shown(
    detected: BuiltinTheme,
    file: Theme,
    base: BuiltinTheme,
)
    ensures
        resolved_theme(detected, Some(file), ThemeSelection::Auto).base == detected,
        resolved_theme(detected, Some(file), ThemeSelection::Auto).name == theme_label(detected),
        resolved_theme(detected, Some(file), ThemeSelection::Auto).colors
            == crate::palette::colors_of(detected),
        resolved_theme(detected, Some(file), ThemeSelection::Builtin(base)).base == base,
        resolved_theme(detected, Some(file), ThemeSelection::Builtin(base)).name == theme_label(
            base,
        ),
        resolved_theme(detected, Some(file), ThemeSelection::Builtin(base)).colors
            == crate::palette::colors_of(base),
        resolved_theme(detected, Some(file), ThemeSelection::File) == file@,
        theme_label(BuiltinTheme::Dark) == "FlowLens Dark"@,
        theme_label(BuiltinTheme::SignalDeck) == "Signal Deck"@,
        theme_label(BuiltinTheme::Ansi16) == "ANSI 16"@,
        theme_label(BuiltinTheme::Mono) == "Mono"@,
{
}

proof fn lemma_component_end(path: Seq<char>, from: int, end: int, rules: PathRules)
    requires
        0 <= from <= end <= path.len(),
        forall|i: int| from <= i < end ==> !rules.separates(#[trigger] path[i]),
        end < path.len() ==> rules.separates(path[end]),
    ensures
        component_end(path, from, rules) == end,
    decreases end - from,
{
    if from < end {
        assert(!rules.separates(path[from]));
        lemma_component_end(path, from + 1, end, rules);
    }
}

/// On Windows the server and the share at the start of a network path are left out, whichever
/// slashes are used.
pub proof fn lemma_network_paths_leave_out_server_and_share(
    server: Seq<char>,
    share: Seq<char>,
    rest: Seq<char>,
)
    requires
        server.len() > 0,
        server != seq!['.'],
        server != seq!['?'],
        share.len() > 0,
        forall|i: int| 0 <= i < server.len() ==> #[trigger] server[i] != '/' && server[i] != '\\',
        forall|i: int| 0 <= i < share.len() ==> #[trigger] share[i] != '/' && share[i] != '\\',
    ensures
        file_name(
            PathStyle::Windows,
            seq!['\\', '\\'] + server + seq!['\\'] + share + seq!['\\'] + rest,
        ) == last_component(
            seq!['\\'] + rest,
            PathRules { slash: true, backslash: true, keeps_dot: false },
        ),
{
    let rules = PathRules { slash: true, backslash: true, keeps_dot: false };
    let path = seq!['\\', '\\'] + server + seq!['\\'] + share + seq!['\\'] + rest;
    let at = 2 + server.len();
    let end = at + 1 + share.len();
    assert forall|i: int| 2 <= i < at implies !rules.separates(#[trigger] path[i]) by {
        assert(path[i] == server[i - 2]);
    }
    assert(path[at as int] == '\\');
    assert forall|i: int| at + 1 <= i < end implies !rules.separates(#[trigger] path[i]) by {
        assert(path[i] == share[i - at - 1]);
    }
    assert(path[end as int] == '\\');
    lemma_component_end(path, 2, at as int, rules);
    lemma_component_end(path, at as int + 1, end as int, rules);
    assert(path[0] == '\\' && path[1] == '\\');
    if server.len() == 1 {
        assert(path[2] == server[0]);
        assert(server =~= seq![server[0]]);
        assert(server[0] != '.' && server[0] != '?');
    } else {
        assert(path[3] == server[1]);
    }
    assert(path.skip(end as int) =~= seq!['\\'] + rest);
}

/// On Windows a server without a share is no start to be left out.
pub proof fn lemma_servers_without_a_share_are_kept(server: Seq<char>, ended: bool)
    requires
        server.len() > 0,
        server != seq!['.'],
        server != seq!['?'],
        forall|i: int| 0 <= i < server.len() ==> #[trigger] server[i] != '/' && server[i] != '\\',
    ensures
        ({
            let path = if ended {
                seq!['\\', '\\'] + server + seq!['\\']
            } else {
                seq!['\\', '\\'] + server
            };
            file_name(PathStyle::Windows, path) == last_component(
                path,
                PathRules { slash: true, backslash: true, keeps_dot: false },
            )
        }),
{
    let rules = PathRules { slash: true, backslash: true, keeps_dot: false };
    let path = if ended {
        seq!['\\', '\\'] + server + seq!['\\']
    } else {
        seq!['\\', '\\'] + server
    };
    let at = 2 + server.len();
    assert forall|i: int| 2 <= i < at implies !rules.separates(#[trigger] path[i]) by {
        assert(path[i] == server[i - 2]);
    }
    assert(path[0] == '\\' && path[1] == '\\');
    if ended {
        assert(path[at as int] == '\\');
        lemma_component_end(path, at as int + 1, at as int + 1, rules);
    }
    lemma_component_end(path, 2, at as int, rules);
    assert(path[2] == server[0]);
    if server.len() == 1 {
        assert(server =~= seq![server[0]]);
    } else {
        assert(path[3] == server[1]);
    }
    assert(path.skip(0) =~= path);
}

/// On Windows the name of a device is left out.
pub proof fn lemma_device_paths_leave_out_the_device(device: Seq<char>, rest: Seq<char>)
    requires
        forall|i: int| 0 <= i < device.len() ==> #[trigger] device[i] != '/' && device[i] != '\\',
        rest.len() > 0 ==> rest[0] == '\\' || rest[0] == '/',
    ensures
        file_name(PathStyle::Windows, seq!['\\', '\\', '.', '\\'] + device + rest)
            == last_component(
            rest,
            PathRules { slash: true, backslash: true, keeps_dot: false },
        ),
{
    let rules = PathRules { slash: true, backslash: true, keeps_dot: false };
    let path = seq!['\\', '\\', '.', '\\'] + device + rest;
    let end = 4 + device.len();
    assert forall|i: int| 4 <= i < end implies !rules.separates(#[trigger] path[i]) by {
        assert(path[i] == device[i - 4]);
    }
    if rest.len() > 0 {
        assert(path[end as int] == rest[0]);
    }
    lemma_component_end(path, 4, end as int, rules);
    assert(path[0] == '\\' && path[1] == '\\' && path[2] == '.' && path[3] == '\\');
    assert(path.skip(end as int) =~= rest);
}

/// In a verbatim path of Windows only backslashes separate components and a point counts as
/// one. A drive, a server with its share, or any other first component is left out.
pub proof fn lemma_verbatim_paths(
    drive: char,
    server: Seq<char>,
    share: Seq<char>,
    name: Seq<char>,
    rest: Seq<char>,
)
    requires
        'A' <= drive <= 'Z' || 'a' <= drive <= 'z',
        share.len() > 0,
        forall|i: int| 0 <= i < server.len() ==> #[trigger] server[i] != '\\',
        forall|i: int| 0 <= i < share.len() ==> #[trigger] share[i] != '\\',
        name.len() > 3,
        forall|i: int| 0 <= i < name.len() ==> #[trigger] name[i] != '\\' && name[i] != '/',
        name[1] != ':',
        rest.len() > 0 ==> rest[0] == '\\',
    ensures
        ({
            let rules = PathRules { slash: false, backslash: true, keeps_dot: true };
            let start = seq!['\\', '\\', '?', '\\'];
            &&& file_name(PathStyle::Windows, start + seq![drive, ':'] + rest) == last_component(
                rest,
                rules,
            )
            &&& file_name(
                PathStyle::Windows,
                start + seq!['U', 'N', 'C', '\\'] + server + seq!['\\'] + share + rest,
            ) == last_component(rest, rules)
            &&& file_name(PathStyle::Windows, start + name + rest) == last_component(rest, rules)
        }),
{
    let rules = PathRules { slash: false, backslash: true, keeps_dot: true };
    let start = seq!['\\', '\\', '?', '\\'];
    let first = start + seq![drive, ':'] + rest;
    assert(first[0] == '\\' && first[1] == '\\' && first[2] == '?' && first[3] == '\\');
    assert(first[4] == drive && first[5] == ':');
    if rest.len() > 0 {
        assert(first[6] == rest[0]);
    }
    assert(first.skip(6) =~= rest);
    let second = start + seq!['U', 'N', 'C', '\\'] + server + seq!['\\'] + share + rest;
    let at = 8 + server.len();
    let end = at + 1 + share.len();
    assert(second[0] == '\\' && second[1] == '\\' && second[2] == '?' && second[3] == '\\');
    assert(second[4] == 'U' && second[5] == 'N' && second[6] == 'C' && second[7] == '\\');
    assert forall|i: int| 8 <= i < at implies !rules.separates(#[trigger] second[i]) by {
        assert(second[i] == server[i - 8]);
    }
    assert(second[at as int] == '\\');
    assert forall|i: int| at + 1 <= i < end implies !rules.separates(#[trigger] second[i]) by {
        assert(second[i] == share[i - at - 1]);
    }
    if rest.len() > 0 {
        assert(second[end as int] == rest[0]);
    }
    lemma_component_end(second, 8, at as int, rules);
    lemma_component_end(second, at as int + 1, end as int, rules);
    assert(second.skip(end as int) =~= rest);
    let third = start + name + rest;
    let stop = 4 + name.len();
    assert(third[0] == '\\' && third[1] == '\\' && third[2] == '?' && third[3] == '\\');
    assert forall|i: int| 4 <= i < stop implies !rules.separates(#[trigger] third[i]) by {
        assert(third[i] == name[i - 4]);
    }
    assert(third[5] == name[1]);
    assert(third[7] == name[3]);
    if rest.len() > 0 {
        assert(third[stop as int] == rest[0]);
    }
    lemma_component_end(third, 4, stop as int, rules);
    assert(third.skip(stop as int) =~= rest);
}

} // verus!
