//! Choosing the port: the selection modes, what is known of each listed
//! port, the filters over the list, and the menu that lets the operator pick
//! one by number.

use vstd::prelude::*;
use vstd::string::StrSliceExecFns;
use crate::error::UploadError;

verus! {

/// How the port to upload to is found.
#[derive(Clone, Copy, Debug)]
pub enum PortSelector<'a> {
    /// The port whose USB vendor and product id are those of the serial chip
    /// on the lab's boards.
    AutoManufacturer,
    /// Every listed USB port in turn, ending at the first failure.
    SearchFirst,
    /// Every listed USB port in turn, going on after a failure.
    SearchAll,
    /// The port that the operator picks from a menu.
    ChooseInteractive,
    /// The port of this name.
    Named(&'a str),
}

impl<'a> Default for PortSelector<'a> {
    fn default() -> (selector: Self)
        ensures
            selector == PortSelector::<'a>::AutoManufacturer,
    {
        PortSelector::AutoManufacturer
    }
}

impl<'a> From<&'a str> for PortSelector<'a> {
    fn from(name: &'a str) -> (selector: Self) {
        PortSelector::Named(name)
    }
}

impl<'a> vstd::std_specs::convert::FromSpecImpl<&'a str> for PortSelector<'a> {
    open spec fn obeys_from_spec() -> bool {
        true
    }

    open spec fn from_spec(name: &'a str) -> Self {
        PortSelector::Named(name)
    }
}

/// USB identity of a port: vendor and product id as hexadecimal text.
#[derive(Debug, PartialEq, Eq)]
pub struct UsbInfo {
    pub vid: String,
    pub pid: String,
}

/// What is known of one listed port.
#[derive(Debug, PartialEq, Eq)]
pub struct SerialInfo {
    /// Name under which the port is opened.
    pub name: String,
    /// Product description, if the device gives one.
    pub product: Option<String>,
    /// USB identity, if the port is a USB device.
    pub usb_info: Option<UsbInfo>,
}

impl Clone for UsbInfo {
    fn clone(&self) -> (copy: Self)
        ensures
            copy == *self,
    {
        UsbInfo { vid: self.vid.clone(), pid: self.pid.clone() }
    }
}

impl Clone for SerialInfo {
    fn clone(&self) -> (copy: Self)
        ensures
            copy == *self,
    {
        let product = match &self.product {
            Some(product) => Some(product.clone()),
            None => None,
        };
        let usb_info = match &self.usb_info {
            Some(usb_info) => Some(usb_info.clone()),
            None => None,
        };
        SerialInfo { name: self.name.clone(), product, usb_info }
    }
}

/// The port carries the vendor id 0403, with or without its leading zero,
/// and the product id 6015.
pub open spec fn lab_board(port: SerialInfo) -> bool {
    match port.usb_info {
        Some(usb_info) => (usb_info.vid@ == "403"@ || usb_info.vid@ == "0403"@) && usb_info.pid@
            == "6015"@,
        None => false,
    }
}

/// The text of each name.
pub open spec fn names_of(names: Seq<String>) -> Seq<Seq<char>> {
    names.map_values(|name: String| name@)
}

/// The names of the USB ports among `ports`, in their order.
pub open spec fn usb_port_names(ports: Seq<SerialInfo>) -> Seq<Seq<char>>
    decreases ports.len(),
{
    if ports.len() == 0 {
        Seq::empty()
    } else if ports.last().usb_info is Some {
        usb_port_names(ports.drop_last()).push(ports.last().name@)
    } else {
        usb_port_names(ports.drop_last())
    }
}

/// The lab's boards among `ports`, in their order.
pub open spec fn lab_boards(ports: Seq<SerialInfo>) -> Seq<SerialInfo>
    decreases ports.len(),
{
    if ports.len() == 0 {
        Seq::empty()
    } else if lab_board(ports.last()) {
        lab_boards(ports.drop_last()).push(ports.last())
    } else {
        lab_boards(ports.drop_last())
    }
}

/// The candidates of a search: the name of every listed port that is a USB
/// device, in the order of the list.
pub fn all_serial_ports(ports: &Vec<SerialInfo>) -> (names: Vec<String>)
    ensures
        names_of(names@) == usb_port_names(ports@),
{
    let mut names: Vec<String> = Vec::new();
    let mut i: usize = 0;
    assert(names_of(names@) =~= Seq::<Seq<char>>::empty());
    while i < ports.len()
        invariant
            i <= ports.len(),
            names_of(names@) == usb_port_names(ports@.take(i as int)),
        decreases ports.len() - i,
    {
        proof {
            assert(ports@.take(i + 1).drop_last() =~= ports@.take(i as int));
        }
        if ports[i].usb_info.is_some() {
            let ghost before = names@;
            names.push(ports[i].name.clone());
            assert(names_of(names@) =~= names_of(before).push(ports[i as int].name@));
        }
        i += 1;
    }
    proof {
        assert(ports@.take(ports.len() as int) =~= ports@);
    }
    names
}

/// Whether `port` is one of the lab's boards.
pub fn is_lab_board(port: &SerialInfo) -> (matches: bool)
    ensures
        matches == lab_board(*port),
{
    match &port.usb_info {
        Some(usb_info) => {
            let short_vid = "403".to_owned();
            let long_vid = "0403".to_owned();
            let pid = "6015".to_owned();
            (usb_info.vid == short_vid || usb_info.vid == long_vid) && usb_info.pid == pid
        },
        None => false,
    }
}

/// Why an answer at the menu picks no port.
#[derive(Clone, Copy, Debug, PartialEq, Eq, Structural)]
pub enum Complaint {
    /// The answer is a number, but no port has it.
    OutOfRange,
    /// The answer is not a number.
    NotANumber,
}

/// A menu of ports for the operator to pick from; never empty.
pub struct Menu {
    ports: Vec<SerialInfo>,
}

impl View for Menu {
    type V = Seq<SerialInfo>;

    closed spec fn view(&self) -> Seq<SerialInfo> {
        self.ports@
    }
}

/// What an answer picks from a menu of `ports`: the name of the port whose
/// number it is, counting from 0.
pub open spec fn reply(ports: Seq<SerialInfo>, answer: Seq<char>) -> Result<String, Complaint> {
    match parsed_index(answer) {
        Some(index) => if index < ports.len() {
            Ok(ports[index as int].name)
        } else {
            Err(Complaint::OutOfRange)
        },
        None => Err(Complaint::NotANumber),
    }
}

impl Menu {
    #[verifier::type_invariant]
    spec fn not_empty(self) -> bool {
        self.ports.len() > 0
    }

    /// The ports on the menu, in the order in which they are numbered.
    pub fn ports(&self) -> (ports: &Vec<SerialInfo>)
        ensures
            ports@ == self@,
            ports@.len() > 0,
    {
        proof {
            use_type_invariant(self);
        }
        &self.ports
    }

    /// Reads the operator's answer: see [`reply`]. A complaint means that
    /// the menu is to be shown again.
    pub fn answer(&self, line: &str) -> (picked: Result<String, Complaint>)
        ensures
            picked == reply(self@, line@),
    {
        match parse_index(line) {
            Some(index) => {
                if index < self.ports.len() {
                    Ok(self.ports[index].name.clone())
                } else {
                    Err(Complaint::OutOfRange)
                }
            },
            None => Err(Complaint::NotANumber),
        }
    }
}

/// Opens a menu of `ports`. With no port to choose from there is no menu.
pub fn internal_choose_interactive(ports: Vec<SerialInfo>) -> (menu: Result<Menu, UploadError>)
    ensures
        ports@.len() == 0 ==> menu == Err::<Menu, UploadError>(UploadError::NotFound),
        ports@.len() > 0 ==> menu is Ok && menu->Ok_0@ == ports@,
{
    if ports.len() == 0 {
        Err(UploadError::NotFound)
    } else {
        Ok(Menu { ports })
    }
}

/// Opens a menu of all the listed ports.
pub fn choose_interactive(ports: Vec<SerialInfo>) -> (menu: Result<Menu, UploadError>)
    ensures
        ports@.len() == 0 ==> menu == Err::<Menu, UploadError>(UploadError::NotFound),
        ports@.len() > 0 ==> menu is Ok && menu->Ok_0@ == ports@,
{
    internal_choose_interactive(ports)
}

/// What the search for the lab's board found.
pub enum Found {
    /// Exactly one board: its port.
    Port(String),
    /// Several boards: a menu of them.
    Several(Menu),
}

/// Looks for the lab's boards among `ports`. None is `NotFound`; one is the
/// port to use; several go to the operator as a menu.
pub fn find_available_serial_port_by_id(ports: &Vec<SerialInfo>) -> (found: Result<
    Found,
    UploadError,
>)
    ensures
        lab_boards(ports@).len() == 0 ==> found == Err::<Found, UploadError>(
            UploadError::NotFound,
        ),
        lab_boards(ports@).len() == 1 ==> found == Ok::<Found, UploadError>(
            Found::Port(lab_boards(ports@)[0].name),
        ),
        lab_boards(ports@).len() > 1 ==> (found matches Ok(Found::Several(menu)) && menu@
            == lab_boards(ports@)),
{
    let mut boards: Vec<SerialInfo> = Vec::new();
    let mut i: usize = 0;
    while i < ports.len()
        invariant
            i <= ports.len(),
            boards@ == lab_boards(ports@.take(i as int)),
        decreases ports.len() - i,
    {
        proof {
            assert(ports@.take(i + 1).drop_last() =~= ports@.take(i as int));
        }
        if is_lab_board(&ports[i]) {
            boards.push(ports[i].clone());
        }
        i += 1;
    }
    proof {
        assert(ports@.take(ports.len() as int) =~= ports@);
    }
    if boards.len() == 0 {
        Err(UploadError::NotFound)
    } else if boards.len() == 1 {
        Ok(Found::Port(boards[0].name.clone()))
    } else {
        Ok(Found::Several(Menu { ports: boards }))
    }
}

/// The outcome of a selection: the ports to try, or a question to the
/// operator.
pub enum Selection {
    /// The ports to try, in order, and whether the first failure ends the
    /// upload.
    Candidates { ports: Vec<String>, stop_on_first_error: bool },
    /// The operator picks the one port to try.
    Ask { menu: Menu },
}

/// A [`Selection`] as contracts speak of it.
pub enum SelectionModel {
    Candidates { ports: Seq<Seq<char>>, stop_on_first_error: bool },
    Ask { menu: Seq<SerialInfo> },
}

impl View for Selection {
    type V = SelectionModel;

    open spec fn view(&self) -> SelectionModel {
        match *self {
            Selection::Candidates { ports, stop_on_first_error } => SelectionModel::Candidates {
                ports: names_of(ports@),
                stop_on_first_error,
            },
            Selection::Ask { menu } => SelectionModel::Ask { menu: menu@ },
        }
    }
}

/// What each selection mode makes of the listed ports.
///
/// A search takes every USB port as a candidate, `SearchFirst` ending at the
/// first failure and `SearchAll` going on to the next port. A named port is
/// the only candidate, whatever is listed. The lab's board is the only
/// candidate if exactly one is listed; several go to the operator and none is
/// `NotFound`. The interactive mode puts every listed port on the menu, and
/// is `NotFound` when the list is empty. A port that the operator picks is
/// tried alone and its failure ends the upload.
pub open spec fn selected(selector: PortSelector, ports: Seq<SerialInfo>) -> Result<
    SelectionModel,
    UploadError,
> {
    match selector {
        PortSelector::SearchFirst => Ok(
            SelectionModel::Candidates { ports: usb_port_names(ports), stop_on_first_error: true },
        ),
        PortSelector::SearchAll => Ok(
            SelectionModel::Candidates {
                ports: usb_port_names(ports),
                stop_on_first_error: false,
            },
        ),
        PortSelector::Named(name) => Ok(
            SelectionModel::Candidates { ports: seq![name@], stop_on_first_error: false },
        ),
        PortSelector::ChooseInteractive => if ports.len() == 0 {
            Err(UploadError::NotFound)
        } else {
            Ok(SelectionModel::Ask { menu: ports })
        },
        PortSelector::AutoManufacturer => {
            let boards = lab_boards(ports);
            if boards.len() == 0 {
                Err(UploadError::NotFound)
            } else if boards.len() == 1 {
                Ok(
                    SelectionModel::Candidates {
                        ports: seq![boards[0].name@],
                        stop_on_first_error: true,
                    },
                )
            } else {
                Ok(SelectionModel::Ask { menu: boards })
            }
        },
    }
}

/// Applies the selection mode to the listed ports: see [`selected`].
pub fn select(selector: &PortSelector, ports: Vec<SerialInfo>) -> (selection: Result<
    Selection,
    UploadError,
>)
    ensures
        match selected(*selector, ports@) {
            Ok(expected) => selection is Ok && selection->Ok_0@ == expected,
            Err(error) => selection is Err && selection->Err_0 == error,
        },
{
    match *selector {
        PortSelector::SearchFirst => Ok(
            Selection::Candidates { ports: all_serial_ports(&ports), stop_on_first_error: true },
        ),
        PortSelector::SearchAll => Ok(
            Selection::Candidates { ports: all_serial_ports(&ports), stop_on_first_error: false },
        ),
        PortSelector::Named(name) => {
            let mut names: Vec<String> = Vec::new();
            names.push(name.to_owned());
            assert(names_of(names@) =~= seq![name@]);
            Ok(Selection::Candidates { ports: names, stop_on_first_error: false })
        },
        PortSelector::ChooseInteractive => match choose_interactive(ports) {
            Ok(menu) => Ok(Selection::Ask { menu }),
            Err(error) => Err(error),
        },
        PortSelector::AutoManufacturer => match find_available_serial_port_by_id(&ports) {
            Ok(Found::Port(name)) => {
                let mut names: Vec<String> = Vec::new();
                names.push(name);
                assert(names_of(names@) =~= seq![lab_boards(ports@)[0].name@]);
                Ok(Selection::Candidates { ports: names, stop_on_first_error: true })
            },
            Ok(Found::Several(menu)) => Ok(Selection::Ask { menu }),
            Err(error) => Err(error),
        },
    }
}

/// White space as a line of input is trimmed of it.
pub open spec fn is_space(c: char) -> bool {
    let code = c as u32;
    ||| 0x09 <= code <= 0x0d
    ||| code == 0x20
    ||| code == 0x85
    ||| code == 0xa0
    ||| code == 0x1680
    ||| 0x2000 <= code <= 0x200a
    ||| code == 0x2028
    ||| code == 0x2029
    ||| code == 0x202f
    ||| code == 0x205f
    ||| code == 0x3000
}

/// One of the ten decimal digits.
pub open spec fn is_digit(c: char) -> bool {
    0x30 <= c as u32 <= 0x39
}

/// How many characters of white space `text` begins with.
pub open spec fn leading_spaces(text: Seq<char>) -> nat
    decreases text.len(),
{
    if text.len() > 0 && is_space(text[0]) {
        1 + leading_spaces(text.skip(1))
    } else {
        0
    }
}

/// How many characters of white space `text` ends with.
pub open spec fn trailing_spaces(text: Seq<char>) -> nat
    decreases text.len(),
{
    if text.len() > 0 && is_space(text.last()) {
        1 + trailing_spaces(text.drop_last())
    } else {
        0
    }
}

/// `text` without the white space at its two ends.
pub open spec fn trimmed(text: Seq<char>) -> Seq<char> {
    let rest = text.skip(leading_spaces(text) as int);
    rest.take(rest.len() - trailing_spaces(rest))
}

/// The number that decimal digits write.
pub open spec fn decimal_value(digits: Seq<char>) -> nat
    decreases digits.len(),
{
    if digits.len() == 0 {
        0
    } else {
        decimal_value(digits.drop_last()) * 10 + (digits.last() as u32 - 0x30) as nat
    }
}

/// `text` without the `+` that it may begin with.
pub open spec fn unsigned_part(text: Seq<char>) -> Seq<char> {
    if text.len() > 0 && text[0] == '+' {
        text.skip(1)
    } else {
        text
    }
}

/// The number that a line of input gives: white space at its ends aside, it
/// must be decimal digits, at least one, with at most a `+` before them, and
/// the number must fit the machine's word.
pub open spec fn parsed_index(line: Seq<char>) -> Option<usize> {
    let digits = unsigned_part(trimmed(line));
    if digits.len() > 0 && (forall|i: int| 0 <= i < digits.len() ==> is_digit(digits[i]))
        && decimal_value(digits) <= usize::MAX {
        Some(decimal_value(digits) as usize)
    } else {
        None
    }
}

fn is_whitespace(c: char) -> (space: bool)
    ensures
        space == is_space(c),
{
    let code: u32 = c as u32;
    (0x09 <= code && code <= 0x0d) || code == 0x20 || code == 0x85 || code == 0xa0 || code
        == 0x1680 || (0x2000 <= code && code <= 0x200a) || code == 0x2028 || code == 0x2029
        || code == 0x202f || code == 0x205f || code == 0x3000
}

/// A longer row of digits writes no smaller number than its beginning.
proof fn lemma_decimal_value_grows(digits: Seq<char>, count: int)
    requires
        0 <= count <= digits.len(),
    ensures
        decimal_value(digits.take(count)) <= decimal_value(digits),
    decreases digits.len(),
{
    if count == digits.len() {
        assert(digits.take(count) =~= digits);
    } else {
        lemma_decimal_value_grows(digits.drop_last(), count);
        assert(digits.drop_last().take(count) =~= digits.take(count));
    }
}

/// Reads the number that a line of input gives: see [`parsed_index`].
pub fn parse_index(line: &str) -> (index: Option<usize>)
    ensures
        index == parsed_index(line@),
{
    let len: usize = line.unicode_len();
    let mut start: usize = 0;
    proof {
        assert(line@.skip(0) =~= line@);
    }
    while start < len && is_whitespace(line.get_char(start))
        invariant
            start <= len,
            len == line@.len(),
            leading_spaces(line@) == start + leading_spaces(line@.skip(start as int)),
        decreases len - start,
    {
        proof {
            assert(line@.skip(start as int).skip(1) =~= line@.skip(start + 1));
        }
        start += 1;
    }
    let ghost rest = line@.skip(start as int);
    assert(leading_spaces(line@) == start);
    let mut end: usize = len;
    proof {
        assert(rest.take(rest.len() as int) =~= rest);
    }
    while end > start && is_whitespace(line.get_char(end - 1))
        invariant
            start <= end <= len,
            len == line@.len(),
            rest == line@.skip(start as int),
            trailing_spaces(rest) == (len - end) + trailing_spaces(rest.take(end - start)),
        decreases end - start,
    {
        proof {
            assert(rest.take(end - start).drop_last() =~= rest.take(end - start - 1));
        }
        end -= 1;
    }
    assert(trailing_spaces(rest) == len - end);
    let ghost text = trimmed(line@);
    assert(text =~= line@.subrange(start as int, end as int));
    let mut i: usize = start;
    if i < end && line.get_char(i) == '+' {
        i += 1;
    }
    let ghost digits = line@.subrange(i as int, end as int);
    assert(digits =~= unsigned_part(text));
    if i == end {
        return None;
    }
    let first: usize = i;
    let mut value: usize = 0;
    proof {
        assert(digits.take(0) =~= Seq::<char>::empty());
    }
    while i < end
        invariant
            first <= i <= end <= len,
            len == line@.len(),
            digits == line@.subrange(first as int, end as int),
            digits == unsigned_part(trimmed(line@)),
            value == decimal_value(digits.take(i - first)),
            forall|k: int| 0 <= k < i - first ==> is_digit(digits[k]),
        decreases end - i,
    {
        let code: u32 = line.get_char(i) as u32;
        if code < 0x30 || code > 0x39 {
            assert(!is_digit(digits[i - first]));
            return None;
        }
        let digit: usize = (code - 0x30) as usize;
        proof {
            assert(digits.take(i - first + 1).drop_last() =~= digits.take(i - first));
            lemma_decimal_value_grows(digits, i - first + 1);
            assert(digits.take(i - first + 1).last() == digits[i - first]);
            assert(decimal_value(digits.take(i - first + 1)) == value * 10 + digit);
        }
        let scaled: usize = match value.checked_mul(10) {
            Some(scaled) => scaled,
            None => {
                return None;
            },
        };
        value = match scaled.checked_add(digit) {
            Some(sum) => sum,
            None => {
                return None;
            },
        };
        i += 1;
    }
    proof {
        assert(digits.take(digits.len() as int) =~= digits);
    }
    Some(value)
}

} // verus!
