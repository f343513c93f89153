use printer_adapter::discovery::PortDescriptor;
use printer_adapter::discovery::TransportClass;
use printer_adapter::discovery::UsbMeta;
use printer_adapter::discovery::filter_candidate_ports;
use printer_adapter::discovery::get_usb_port_count;

fn usb_port(name: &str) -> PortDescriptor {
    PortDescriptor {
        name: name.to_string(),
        class: TransportClass::Usb(UsbMeta { vid: 0x1a86, pid: 0x7523, serial_number: None }),
    }
}

fn other_port(name: &str) -> PortDescriptor {
    PortDescriptor { name: name.to_string(), class: TransportClass::Other }
}

fn names(ports: &[PortDescriptor]) -> Vec<String> {
    ports.iter().map(|p| p.name.clone()).collect()
}

#[test]
fn alias_pair_keeps_only_the_dial_in_form() {
    let ports = vec![
        usb_port("/dev/cu.usbserial-1410"),
        usb_port("/dev/tty.usbserial-1410"),
    ];
    let kept = filter_candidate_ports(&ports);
    assert_eq!(names(&kept), vec!["/dev/tty.usbserial-1410".to_string()]);
}

#[test]
fn callout_without_counterpart_is_kept() {
    let ports = vec![usb_port("/dev/cu.usbserial-1410")];
    let kept = filter_candidate_ports(&ports);
    assert_eq!(names(&kept), vec!["/dev/cu.usbserial-1410".to_string()]);
}

#[test]
fn non_usb_ports_are_dropped_silently() {
    let ports = vec![
        other_port("/dev/ttyS0"),
        usb_port("/dev/ttyUSB0"),
        other_port("/dev/rfcomm0"),
    ];
    let kept = filter_candidate_ports(&ports);
    assert_eq!(names(&kept), vec!["/dev/ttyUSB0".to_string()]);
}

#[test]
fn filter_keeps_host_enumeration_order() {
    let ports = vec![
        usb_port("/dev/ttyUSB1"),
        usb_port("/dev/cu.usbmodem-3"),
        usb_port("/dev/tty.usbmodem-3"),
        usb_port("/dev/ttyUSB0"),
    ];
    let kept = filter_candidate_ports(&ports);
    assert_eq!(
        names(&kept),
        vec![
            "/dev/ttyUSB1".to_string(),
            "/dev/tty.usbmodem-3".to_string(),
            "/dev/ttyUSB0".to_string(),
        ]
    );
}

#[test]
fn usb_port_count_counts_usb_class_only() {
    let ports = vec![
        other_port("/dev/ttyS0"),
        usb_port("/dev/ttyUSB0"),
        usb_port("/dev/ttyUSB1"),
    ];
    assert_eq!(get_usb_port_count(&ports), 2);
    assert_eq!(get_usb_port_count(&Vec::new()), 0);
}
