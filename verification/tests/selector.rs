use tudelft_serial_upload::error::UploadError;
use tudelft_serial_upload::selector::{
    all_serial_ports, choose_interactive, find_available_serial_port_by_id,
    internal_choose_interactive, is_lab_board, parse_index, select, Complaint, Found,
    PortSelector, Selection, SerialInfo, UsbInfo,
};

fn port(name: &str, ids: Option<(&str, &str)>) -> SerialInfo {
    SerialInfo {
        name: String::from(name),
        product: None,
        usb_info: ids.map(|(vid, pid)| UsbInfo { vid: String::from(vid), pid: String::from(pid) }),
    }
}

fn listed() -> Vec<SerialInfo> {
    vec![
        port("/dev/ttyS0", None),
        port("/dev/ttyUSB0", Some(("0403", "6015"))),
        port("/dev/ttyACM0", Some(("1a86", "7523"))),
        port("/dev/ttyUSB1", Some(("403", "6015"))),
        port("/dev/ttyUSB2", Some(("0403", "6010"))),
    ]
}

#[test]
fn test_no_ports() {
    assert!(internal_choose_interactive(Vec::new()).is_err());
}

#[test]
fn no_ports_is_not_found() {
    assert_eq!(internal_choose_interactive(Vec::new()).err(), Some(UploadError::NotFound));
    assert_eq!(choose_interactive(Vec::new()).err(), Some(UploadError::NotFound));
}

#[test]
fn default_selector_is_auto_manufacturer() {
    assert!(matches!(PortSelector::default(), PortSelector::AutoManufacturer));
}

#[test]
fn selector_from_a_name() {
    assert!(matches!(PortSelector::from("/dev/ttyUSB0"), PortSelector::Named("/dev/ttyUSB0")));
}

#[test]
fn search_takes_usb_ports_in_order() {
    assert_eq!(
        all_serial_ports(&listed()),
        vec!["/dev/ttyUSB0", "/dev/ttyACM0", "/dev/ttyUSB1", "/dev/ttyUSB2"]
    );
    assert_eq!(all_serial_ports(&Vec::new()), Vec::<String>::new());
    assert_eq!(all_serial_ports(&vec![port("/dev/ttyS0", None)]), Vec::<String>::new());
}

#[test]
fn lab_board_ids() {
    assert!(is_lab_board(&port("a", Some(("0403", "6015")))));
    assert!(is_lab_board(&port("a", Some(("403", "6015")))));
    assert!(!is_lab_board(&port("a", Some(("0403", "6010")))));
    assert!(!is_lab_board(&port("a", Some(("1a86", "6015")))));
    assert!(!is_lab_board(&port("a", Some(("00403", "6015")))));
    assert!(!is_lab_board(&port("a", Some(("", "")))));
    assert!(!is_lab_board(&port("a", None)));
}

#[test]
fn find_by_id_none_one_several() {
    let none = vec![port("/dev/ttyS0", None), port("/dev/ttyACM0", Some(("1a86", "7523")))];
    assert_eq!(find_available_serial_port_by_id(&none).err(), Some(UploadError::NotFound));
    assert_eq!(find_available_serial_port_by_id(&Vec::new()).err(), Some(UploadError::NotFound));
    let one = vec![port("/dev/ttyS0", None), port("/dev/ttyUSB7", Some(("0403", "6015")))];
    match find_available_serial_port_by_id(&one) {
        Ok(Found::Port(name)) => assert_eq!(name, "/dev/ttyUSB7"),
        _ => panic!("one board expected"),
    }
    match find_available_serial_port_by_id(&listed()) {
        Ok(Found::Several(menu)) => {
            assert_eq!(
                menu.ports(),
                &vec![
                    port("/dev/ttyUSB0", Some(("0403", "6015"))),
                    port("/dev/ttyUSB1", Some(("403", "6015"))),
                ]
            );
        }
        _ => panic!("a menu expected"),
    }
}

#[test]
fn menu_answers() {
    let menu = choose_interactive(listed()).unwrap();
    assert_eq!(menu.ports(), &listed());
    assert_eq!(menu.answer("0\n"), Ok(String::from("/dev/ttyS0")));
    assert_eq!(menu.answer("  4  "), Ok(String::from("/dev/ttyUSB2")));
    assert_eq!(menu.answer("+1"), Ok(String::from("/dev/ttyUSB0")));
    assert_eq!(menu.answer("003"), Ok(String::from("/dev/ttyUSB1")));
    assert_eq!(menu.answer("5"), Err(Complaint::OutOfRange));
    assert_eq!(menu.answer("18446744073709551615"), Err(Complaint::OutOfRange));
    assert_eq!(menu.answer(""), Err(Complaint::NotANumber));
    assert_eq!(menu.answer("\n"), Err(Complaint::NotANumber));
    assert_eq!(menu.answer("one"), Err(Complaint::NotANumber));
    assert_eq!(menu.answer("-1"), Err(Complaint::NotANumber));
    assert_eq!(menu.answer("1 2"), Err(Complaint::NotANumber));
    assert_eq!(menu.answer("99999999999999999999999999"), Err(Complaint::NotANumber));
}

#[test]
fn parse_index_agrees_with_the_standard_parser() {
    let lines = [
        "", " ", "0", "7", "42", "+42", "++42", "+", "-0", "-1", "4 2", " 42\n", "\t42\r\n",
        "042", "0000000000000000000000000000000012", "18446744073709551615",
        "18446744073709551616", "4294967295", "4294967296", "99999999999999999999999", "4a",
        "a4", "0x10", "1_000", "1.0", "\u{a0}5\u{3000}", "\u{2003}6", "\u{200b}7", "５", "٣",
        "12+", " + 1", "+ 1", "1e3",
    ];
    for line in lines {
        assert_eq!(parse_index(line), line.trim().parse::<usize>().ok(), "line {:?}", line);
    }
}

#[test]
fn selection_by_mode() {
    let usb = vec![
        String::from("/dev/ttyUSB0"),
        String::from("/dev/ttyACM0"),
        String::from("/dev/ttyUSB1"),
        String::from("/dev/ttyUSB2"),
    ];
    match select(&PortSelector::SearchFirst, listed()) {
        Ok(Selection::Candidates { ports, stop_on_first_error }) => {
            assert_eq!(ports, usb);
            assert!(stop_on_first_error);
        }
        _ => panic!("candidates expected"),
    }
    match select(&PortSelector::SearchAll, listed()) {
        Ok(Selection::Candidates { ports, stop_on_first_error }) => {
            assert_eq!(ports, usb);
            assert!(!stop_on_first_error);
        }
        _ => panic!("candidates expected"),
    }
    match select(&PortSelector::Named("COM7"), listed()) {
        Ok(Selection::Candidates { ports, stop_on_first_error }) => {
            assert_eq!(ports, vec![String::from("COM7")]);
            assert!(!stop_on_first_error);
        }
        _ => panic!("candidates expected"),
    }
    match select(&PortSelector::ChooseInteractive, listed()) {
        Ok(Selection::Ask { menu }) => assert_eq!(menu.ports(), &listed()),
        _ => panic!("a menu expected"),
    }
    assert_eq!(
        select(&PortSelector::ChooseInteractive, Vec::new()).err(),
        Some(UploadError::NotFound)
    );
    match select(&PortSelector::AutoManufacturer, listed()) {
        Ok(Selection::Ask { menu }) => assert_eq!(menu.ports().len(), 2),
        _ => panic!("a menu expected"),
    }
    let one = vec![port("/dev/ttyS0", None), port("/dev/ttyUSB7", Some(("0403", "6015")))];
    match select(&PortSelector::AutoManufacturer, one) {
        Ok(Selection::Candidates { ports, stop_on_first_error }) => {
            assert_eq!(ports, vec![String::from("/dev/ttyUSB7")]);
            assert!(stop_on_first_error);
        }
        _ => panic!("candidates expected"),
    }
    assert_eq!(
        select(&PortSelector::AutoManufacturer, vec![port("/dev/ttyS0", None)]).err(),
        Some(UploadError::NotFound)
    );
}
