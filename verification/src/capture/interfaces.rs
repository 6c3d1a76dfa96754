//! The interfaces of the host: which there are, how they are shown and selected.

use vstd::prelude::*;
use vstd::string::*;

use crate::addresses::{lists_once, sorted_addresses};
use crate::net::IpAddr;
use crate::scan::{
    digits_value, is_only_digits, lines, natural, only_digits, parse_decimal, parse_natural,
    parts_view, split_lines, split_words, text_of, words,
};
use crate::text::{chars_of, decimal, optional_view, push_decimal, same_text, text_view};

verus! {

/// A network device as the capture library lists it.
#[derive(Debug, PartialEq, Eq)]
pub struct Device {
    pub name: String,
    pub desc: Option<String>,
    pub addresses: Vec<IpAddr>,
    pub is_loopback: bool,
}

/// An interface that can be captured on.
#[derive(Debug, PartialEq, Eq)]
pub struct InterfaceInfo {
    pub name: String,
    pub description: String,
    pub addresses: Vec<IpAddr>,
    pub is_default_route: bool,
}

/// What an interface shows of itself, as a mathematical value.
pub ghost struct InterfaceView {
    pub name: Seq<char>,
    pub description: Seq<char>,
    pub addresses: Seq<IpAddr>,
    pub is_default_route: bool,
}

impl View for InterfaceInfo {
    type V = InterfaceView;

    open spec fn view(&self) -> InterfaceView {
        InterfaceView {
            name: self.name@,
            description: self.description@,
            addresses: self.addresses@,
            is_default_route: self.is_default_route,
        }
    }
}

impl Clone for InterfaceInfo {
    fn clone(&self) -> (copy: Self)
        ensures
            copy@ == self@,
    {
        let addresses = self.addresses.clone();
        assert(addresses@ =~= self.addresses@);
        InterfaceInfo {
            name: self.name.clone(),
            description: self.description.clone(),
            addresses,
            is_default_route: self.is_default_route,
        }
    }
}

/// Which of its two labels an interface shows first.
#[derive(Clone, Copy, Debug, PartialEq, Eq, Structural)]
pub enum InterfaceLabelOrder {
    NameFirst,
    DescriptionFirst,
}

/// The interface of the first default route in the lines of a routing table, where a
/// destination that is no hexadecimal number ends the search.
pub open spec fn first_default_route(routes: Seq<Seq<char>>) -> Option<Seq<char>>
    decreases routes.len(),
{
    if routes.len() == 0 {
        None
    } else {
        let fields = words(routes[0]);
        if fields.len() >= 11 {
            match natural(fields[1], 16, u32::MAX as nat) {
                None => None,
                Some(destination) => if destination == 0 {
                    Some(fields[0])
                } else {
                    first_default_route(routes.drop_first())
                },
            }
        } else {
            first_default_route(routes.drop_first())
        }
    }
}

/// The lines of a table without its heading.
pub open spec fn after_heading(lines: Seq<Seq<char>>) -> Seq<Seq<char>> {
    if lines.len() == 0 {
        lines
    } else {
        lines.drop_first()
    }
}

/// The interface of the default route, from the text of the kernel's routing table,
/// whose first line is a heading.
pub fn default_interface(route_table: &str) -> (interface: Option<String>)
    ensures
        text_view(interface) == first_default_route(after_heading(lines(route_table@))),
{
    let rows = split_lines(&chars_of(route_table));
    let ghost routes = after_heading(lines(route_table@));
    if rows.len() == 0 {
        assert(lines(route_table@).len() == rows@.len());
        assert(routes =~= Seq::<Seq<char>>::empty());
        return None;
    }
    let mut i: usize = 1;
    assert(lines(route_table@).len() == rows@.len());
    assert(routes.skip(0) =~= routes);
    while i < rows.len()
        invariant
            1 <= i <= rows@.len(),
            parts_view(rows@) == lines(route_table@),
            routes == after_heading(lines(route_table@)),
            first_default_route(routes) == first_default_route(routes.skip(i - 1)),
        decreases rows@.len() - i,
    {
        let ghost rest = routes.skip(i - 1);
        assert(rest[0] == parts_view(rows@)[i as int]);
        assert(rest.drop_first() =~= routes.skip(i as int));
        let fields = split_words(&rows[i]);
        assert(fields@.len() == words(rest[0]).len());
        if fields.len() >= 11 {
            assert(parts_view(fields@)[1] == fields@[1]@);
            match parse_natural(&fields[1], 16, 0xffff_ffff) {
                None => {
                    return None;
                },
                Some(destination) => {
                    if destination == 0 {
                        assert(parts_view(fields@)[0] == fields@[0]@);
                        return Some(text_of(&fields[0]));
                    }
                },
            }
        }
        i += 1;
    }
    assert(routes.skip(i - 1) =~= Seq::<Seq<char>>::empty());
    None
}

/// What an interface without a description says instead.
pub open spec fn no_description() -> Seq<char> {
    "No description"@
}

/// Whether an interface of the catalog is what a device says, where `default` names the
/// default route's interface.
pub open spec fn shows_device(
    interface: InterfaceView,
    device: Device,
    default: Option<Seq<char>>,
) -> bool {
    &&& interface.name == device.name@
    &&& interface.description == match device.desc {
        Some(desc) => desc@,
        None => no_description(),
    }
    &&& lists_once(interface.addresses, device.addresses@)
    &&& interface.is_default_route == (default == Some(device.name@))
}

/// The interface that a device is shown as.
fn interface_from_device(device: &Device, default: Option<&str>) -> (interface: InterfaceInfo)
    ensures
        shows_device(interface@, *device, optional_view(default)),
{
    let description = match &device.desc {
        Some(desc) => desc.clone(),
        None => "No description".to_owned(),
    };
    let is_default_route = match default {
        Some(default) => same_text(default, device.name.as_str()),
        None => false,
    };
    InterfaceInfo {
        name: device.name.clone(),
        description,
        addresses: sorted_addresses(&device.addresses),
        is_default_route,
    }
}

/// The interfaces that devices are shown as, in their order.
pub fn interface_catalog_from_devices(devices: &Vec<Device>, default: Option<&str>) -> (catalog:
    Vec<InterfaceInfo>)
    ensures
        catalog@.len() == devices@.len(),
        forall|i: int|
            0 <= i < catalog@.len() ==> shows_device(
                #[trigger] catalog@[i]@,
                devices@[i],
                optional_view(default),
            ),
{
    let mut catalog: Vec<InterfaceInfo> = Vec::new();
    let mut i: usize = 0;
    while i < devices.len()
        invariant
            i <= devices@.len(),
            catalog@.len() == i,
            forall|k: int|
                0 <= k < i ==> shows_device(#[trigger] catalog@[k]@, devices@[k], optional_view(default)),
        decreases devices@.len() - i,
    {
        catalog.push(interface_from_device(&devices[i], default));
        i += 1;
    }
    catalog
}

/// The description of an interface that has one.
pub open spec fn description_shown(interface: InterfaceView) -> Option<Seq<char>> {
    if interface.description.len() == 0 || interface.description == no_description() {
        None
    } else {
        Some(interface.description)
    }
}

/// The labels of an interface: a first one and, with a description, a second one.
pub open spec fn labels(interface: InterfaceView, order: InterfaceLabelOrder) -> (
    Seq<char>,
    Option<Seq<char>>,
) {
    match (order, description_shown(interface)) {
        (InterfaceLabelOrder::NameFirst, description) => (interface.name, description),
        (InterfaceLabelOrder::DescriptionFirst, Some(description)) => (
            description,
            Some(interface.name),
        ),
        (InterfaceLabelOrder::DescriptionFirst, None) => (interface.name, None),
    }
}

impl InterfaceInfo {
    /// The labels of an interface: a first one and, with a description, a second one.
    pub fn display_labels_for(&self, order: InterfaceLabelOrder) -> (shown: (&str, Option<&str>))
        ensures
            (shown.0@, optional_view(shown.1)) == labels(self@, order),
    {
        let plain = chars_of(self.description.as_str()).len() == 0 || same_text(
            self.description.as_str(),
            "No description",
        );
        if plain {
            return (self.name.as_str(), None);
        }
        match order {
            InterfaceLabelOrder::NameFirst => (
                self.name.as_str(),
                Some(self.description.as_str()),
            ),
            InterfaceLabelOrder::DescriptionFirst => (
                self.description.as_str(),
                Some(self.name.as_str()),
            ),
        }
    }
}

/// What precedes the second label of an interface.
pub open spec fn second_label(order: InterfaceLabelOrder) -> Seq<char> {
    match order {
        InterfaceLabelOrder::NameFirst => "     Description: "@,
        InterfaceLabelOrder::DescriptionFirst => "     Name: "@,
    }
}

/// The lines for an interface, under its number in the list.
pub open spec fn interface_entry(
    number: nat,
    interface: InterfaceView,
    order: InterfaceLabelOrder,
) -> Seq<char> {
    let marker = if interface.is_default_route {
        "  [default route]"@
    } else {
        Seq::empty()
    };
    let (first, second) = labels(interface, order);
    let heading = "  "@ + decimal(number) + ". "@ + first + marker + seq!['\n'];
    match second {
        Some(second) => heading + second_label(order) + second + seq!['\n'],
        None => heading,
    }
}

/// The lines for interfaces, numbered from one.
pub open spec fn interface_entries(
    interfaces: Seq<InterfaceView>,
    order: InterfaceLabelOrder,
) -> Seq<char>
    decreases interfaces.len(),
{
    if interfaces.len() == 0 {
        Seq::empty()
    } else {
        interface_entries(interfaces.drop_last(), order) + interface_entry(
            interfaces.len(),
            interfaces.last(),
            order,
        )
    }
}

/// The views of interfaces.
pub open spec fn interface_views(interfaces: Seq<InterfaceInfo>) -> Seq<InterfaceView> {
    interfaces.map_values(|interface: InterfaceInfo| interface@)
}

fn push_interface_entry(
    output: &mut String,
    number: usize,
    interface: &InterfaceInfo,
    order: InterfaceLabelOrder,
)
    ensures
        final(output)@ == old(output)@ + interface_entry(number as nat, interface@, order),
{
    let ghost before = output@;
    let (first, second) = interface.display_labels_for(order);
    output.append("  ");
    push_decimal(output, number as u64);
    output.append(". ");
    output.append(first);
    if interface.is_default_route {
        output.append("  [default route]");
    }
    output.push('\n');
    let ghost marker = if interface.is_default_route {
        "  [default route]"@
    } else {
        Seq::empty()
    };
    let ghost heading = "  "@ + decimal(number as nat) + ". "@ + first@ + marker + seq!['\n'];
    assert(output@ =~= before + heading);
    if let Some(second) = second {
        match order {
            InterfaceLabelOrder::NameFirst => output.append("     Description: "),
            InterfaceLabelOrder::DescriptionFirst => output.append("     Name: "),
        }
        output.append(second);
        output.push('\n');
        assert(output@ =~= before + (heading + second_label(order) + second@ + seq!['\n']));
    }
}

/// The list of interfaces with a hint on how to select one.
pub open spec fn interface_list(
    interfaces: Seq<InterfaceView>,
    order: InterfaceLabelOrder,
) -> Seq<char> {
    "Available interfaces:\n"@ + interface_entries(interfaces, order)
        + "\nUsage: flowlens <interface-or-number> [OPTIONS]\n"@
        + "Run flowlens --help for full usage\n"@
}

/// The list of interfaces with a hint on how to select one.
pub fn format_interface_list(interfaces: &Vec<InterfaceInfo>, order: InterfaceLabelOrder) -> (list:
    String)
    ensures
        list@ == interface_list(interface_views(interfaces@), order),
{
    let mut output = "Available interfaces:\n".to_owned();
    let ghost heading = output@;
    let ghost views = interface_views(interfaces@);
    let mut i: usize = 0;
    assert(output@ =~= heading + interface_entries(views.take(0), order));
    while i < interfaces.len()
        invariant
            i <= interfaces@.len(),
            views == interface_views(interfaces@),
            output@ == heading + interface_entries(views.take(i as int), order),
        decreases interfaces@.len() - i,
    {
        let ghost before = output@;
        push_interface_entry(&mut output, i + 1, &interfaces[i], order);
        assert(views.take(i + 1).drop_last() =~= views.take(i as int));
        assert(views.take(i + 1).last() == interfaces@[i as int]@);
        assert(output@ =~= heading + interface_entries(views.take(i + 1), order));
        i += 1;
    }
    assert(views.take(i as int) =~= views);
    output.append("\nUsage: flowlens <interface-or-number> [OPTIONS]\n");
    output.append("Run flowlens --help for full usage\n");
    assert(output@ =~= interface_list(views, order));
    output
}

/// Why a selector selects no interface.
#[derive(Clone, Copy, Debug, PartialEq, Eq, Structural)]
pub enum SelectFailure {
    /// A number, but there are no interfaces.
    NoInterfaces,
    /// A number that is not between one and `count`.
    OutOfRange { count: usize },
    /// Neither the name of an interface nor a number.
    NotFound,
}

/// A selector that selects no interface.
#[derive(Debug, PartialEq, Eq)]
pub struct SelectError {
    pub selector: String,
    pub failure: SelectFailure,
}

/// What to say of a selector that selects no interface.
pub open spec fn failure_text(selector: Seq<char>, failure: SelectFailure) -> Seq<char> {
    match failure {
        SelectFailure::NoInterfaces => "Invalid interface number: "@ + selector
            + " (no interfaces available)"@,
        SelectFailure::OutOfRange { count } => "Invalid interface number: "@ + selector
            + " (choose 1-"@ + decimal(count as nat) + seq![')'],
        SelectFailure::NotFound => "Interface not found: "@ + selector,
    }
}

impl SelectError {
    /// What to say of it.
    pub fn message(&self) -> (message: String)
        ensures
            message@ == failure_text(self.selector@, self.failure),
    {
        let mut message = match self.failure {
            SelectFailure::NotFound => "Interface not found: ".to_owned(),
            _ => "Invalid interface number: ".to_owned(),
        };
        message.append(self.selector.as_str());
        match self.failure {
            SelectFailure::NoInterfaces => message.append(" (no interfaces available)"),
            SelectFailure::OutOfRange { count } => {
                message.append(" (choose 1-");
                push_decimal(&mut message, count as u64);
                message.push(')');
            },
            SelectFailure::NotFound => {},
        }
        assert(message@ =~= failure_text(self.selector@, self.failure));
        message
    }
}

/// The first place of a name in a list.
pub open spec fn place_of(names: Seq<Seq<char>>, name: Seq<char>) -> Option<int>
    decreases names.len(),
{
    if names.len() == 0 {
        None
    } else {
        match place_of(names.drop_last(), name) {
            Some(place) => Some(place),
            None => if names.last() == name {
                Some(names.len() - 1)
            } else {
                None
            },
        }
    }
}

/// The interface that a selector selects: the first of that name, else the one of that
/// number, counted from one.
pub open spec fn selected(selector: Seq<char>, names: Seq<Seq<char>>) -> Result<
    int,
    SelectFailure,
> {
    match place_of(names, selector) {
        Some(place) => Ok(place),
        None => if only_digits(selector) {
            let number = digits_value(selector, 10)->0;
            if 1 <= number <= names.len() {
                Ok(number - 1)
            } else if names.len() == 0 {
                Err(SelectFailure::NoInterfaces)
            } else {
                Err(SelectFailure::OutOfRange { count: names.len() as usize })
            }
        } else {
            Err(SelectFailure::NotFound)
        },
    }
}

/// A name is found exactly if it is in the list, at its first place.
pub proof fn lemma_place_of(names: Seq<Seq<char>>, name: Seq<char>)
    ensures
        match place_of(names, name) {
            Some(place) => {
                &&& 0 <= place < names.len()
                &&& names[place] == name
                &&& forall|i: int| 0 <= i < place ==> #[trigger] names[i] != name
            },
            None => forall|i: int| 0 <= i < names.len() ==> #[trigger] names[i] != name,
        },
    decreases names.len(),
{
    if names.len() > 0 {
        let shorter = names.drop_last();
        lemma_place_of(shorter, name);
        assert forall|i: int| 0 <= i < shorter.len() implies #[trigger] names[i] == shorter[i] by {}
        match place_of(shorter, name) {
            Some(place) => {
                assert(names[place] == shorter[place]);
            },
            None => {
                assert forall|i: int| 0 <= i < names.len() && names[i] == name implies i
                    == names.len() - 1 by {
                    if i < shorter.len() {
                        assert(shorter[i] != name);
                    }
                }
            },
        }
    }
}

/// Digits spell a number.
proof fn lemma_digits_spell(digits: Seq<char>)
    requires
        forall|i: int|
            0 <= i < digits.len() ==> crate::scan::digit_in(#[trigger] digits[i], 10) is Some,
    ensures
        digits_value(digits, 10) is Some,
    decreases digits.len(),
{
    if digits.len() > 0 {
        let shorter = digits.drop_last();
        assert forall|i: int| 0 <= i < shorter.len() implies crate::scan::digit_in(
            #[trigger] shorter[i],
            10,
        ) is Some by {
            assert(shorter[i] == digits[i]);
        }
        lemma_digits_spell(shorter);
        assert(digits.last() == digits[digits.len() - 1]);
    }
}

/// An interface is selected by its name before it is by its number.
pub proof fn lemma_name_before_number(selector: Seq<char>, names: Seq<Seq<char>>, i: int)
    requires
        0 <= i < names.len(),
        names[i] == selector,
    ensures
        selected(selector, names) matches Ok(place) && 0 <= place <= i && names[place] == selector,
{
    lemma_place_of(names, selector);
}

/// A selector that is no name of an interface and not made of digits selects none.
pub proof fn lemma_other_selectors_fail(selector: Seq<char>, names: Seq<Seq<char>>)
    requires
        !only_digits(selector),
        forall|i: int| 0 <= i < names.len() ==> #[trigger] names[i] != selector,
    ensures
        selected(selector, names) == Err::<int, SelectFailure>(SelectFailure::NotFound),
{
    lemma_place_of(names, selector);
}

/// The names of a list, as mathematical values.
pub open spec fn name_views(names: Seq<String>) -> Seq<Seq<char>> {
    names.map_values(|name: String| name@)
}

/// Where the interface is that a selector selects.
pub fn select_name(selector: &str, names: &Vec<String>) -> (place: Result<usize, SelectError>)
    ensures
        match selected(selector@, name_views(names@)) {
            Ok(at) => place == Ok::<usize, SelectError>(at as usize) && 0 <= at < names@.len(),
            Err(failure) => place matches Err(error) && error.selector@ == selector@
                && error.failure == failure,
        },
{
    let ghost views = name_views(names@);
    proof {
        lemma_place_of(views, selector@);
    }
    let mut i: usize = 0;
    while i < names.len()
        invariant
            i <= names@.len(),
            views == name_views(names@),
            forall|k: int| 0 <= k < i ==> #[trigger] views[k] != selector@,
        decreases names@.len() - i,
    {
        assert(views[i as int] == names@[i as int]@);
        if same_text(names[i].as_str(), selector) {
            proof {
                lemma_place_of(views, selector@);
            }
            return Ok(i);
        }
        i += 1;
    }
    let failure = if is_only_digits(&chars_of(selector)) {
        proof {
            lemma_digits_spell(selector@);
        }
        let ghost number = digits_value(selector@, 10)->0;
        assert(selector@[0] != '+');
        if let Some(number) = parse_decimal(selector, usize::MAX as u64) {
            if number >= 1 && number <= names.len() as u64 {
                return Ok((number - 1) as usize);
            }
        }
        if names.len() == 0 {
            SelectFailure::NoInterfaces
        } else {
            SelectFailure::OutOfRange { count: names.len() }
        }
    } else {
        SelectFailure::NotFound
    };
    Err(SelectError { selector: selector.to_owned(), failure })
}

/// The names of devices.
pub open spec fn device_names(devices: Seq<Device>) -> Seq<Seq<char>> {
    devices.map_values(|device: Device| device.name@)
}

/// The device that a selector selects.
pub fn select_device(selector: &str, devices: Vec<Device>) -> (device: Result<Device, SelectError>)
    ensures
        match selected(selector@, device_names(devices@)) {
            Ok(at) => device == Ok::<Device, SelectError>(devices@[at]) && 0 <= at < devices@.len(),
            Err(failure) => device matches Err(error) && error.selector@ == selector@
                && error.failure == failure,
        },
{
    let mut devices = devices;
    let ghost given = devices@;
    let mut names: Vec<String> = Vec::new();
    let mut i: usize = 0;
    while i < devices.len()
        invariant
            i <= devices@.len(),
            devices@ == given,
            names@.len() == i,
            forall|k: int| 0 <= k < i ==> (#[trigger] names@[k])@ == devices@[k].name@,
        decreases devices@.len() - i,
    {
        names.push(devices[i].name.clone());
        i += 1;
    }
    assert(name_views(names@) =~= device_names(given));
    match select_name(selector, &names) {
        Ok(at) => Ok(devices.remove(at)),
        Err(error) => Err(error),
    }
}

/// The addresses of devices, one device after another.
pub open spec fn device_addresses(devices: Seq<Device>) -> Seq<IpAddr>
    decreases devices.len(),
{
    if devices.len() == 0 {
        Seq::empty()
    } else {
        device_addresses(devices.drop_last()) + devices.last().addresses@
    }
}

fn append_addresses(addresses: &mut Vec<IpAddr>, more: &Vec<IpAddr>)
    ensures
        final(addresses)@ == old(addresses)@ + more@,
{
    let ghost before = addresses@;
    let mut i: usize = 0;
    while i < more.len()
        invariant
            i <= more@.len(),
            addresses@ == before + more@.take(i as int),
        decreases more@.len() - i,
    {
        addresses.push(more[i]);
        assert(addresses@ =~= before + more@.take(i + 1));
        i += 1;
    }
    assert(more@.take(i as int) =~= more@);
}

/// The addresses of the host: those of its devices and those that the system names
/// besides.
pub fn collect_local_ips_with_native(devices: &Vec<Device>, native_ips: &Vec<IpAddr>) -> (local_ips:
    Vec<IpAddr>)
    ensures
        lists_once(local_ips@, device_addresses(devices@) + native_ips@),
{
    let mut all: Vec<IpAddr> = Vec::new();
    let mut i: usize = 0;
    assert(all@ =~= device_addresses(devices@.take(0)));
    while i < devices.len()
        invariant
            i <= devices@.len(),
            all@ == device_addresses(devices@.take(i as int)),
        decreases devices@.len() - i,
    {
        append_addresses(&mut all, &devices[i].addresses);
        assert(devices@.take(i + 1).drop_last() =~= devices@.take(i as int));
        i += 1;
    }
    assert(devices@.take(i as int) =~= devices@);
    append_addresses(&mut all, native_ips);
    sorted_addresses(&all)
}

} // verus!
