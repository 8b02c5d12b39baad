use port_manager::port::{Port, PortParseError};

#[test]
fn test_valid_ports() {
    assert!(Port::new(1).is_ok());
    assert!(Port::new(80).is_ok());
    assert!(Port::new(443).is_ok());
    assert!(Port::new(8080).is_ok());
    assert!(Port::new(65535).is_ok());
}

#[test]
fn test_invalid_port_zero() {
    let result = Port::new(0);
    assert!(result.is_err());
    assert_eq!(result.unwrap_err().value, 0);
}

#[test]
fn test_as_u16() {
    let port = Port::new(8080).unwrap();
    assert_eq!(port.as_u16(), 8080);
}

#[test]
fn test_display() {
    let port = Port::new(8080).unwrap();
    assert_eq!(port.to_string(), "8080");
}

#[test]
fn test_try_from() {
    let port: Result<Port, _> = 8080u16.try_into();
    assert!(port.is_ok());
    assert_eq!(port.unwrap().as_u16(), 8080);

    let invalid: Result<Port, _> = 0u16.try_into();
    assert!(invalid.is_err());
}

#[test]
fn test_from_str() {
    assert_eq!("8080".parse::<Port>().unwrap().as_u16(), 8080);
    assert!("0".parse::<Port>().is_err());
    assert!("abc".parse::<Port>().is_err());
    assert!("".parse::<Port>().is_err());
}

#[test]
fn test_ordering() {
    let p1 = Port::new(80).unwrap();
    let p2 = Port::new(443).unwrap();
    let p3 = Port::new(8080).unwrap();

    assert!(p1 < p2);
    assert!(p2 < p3);
}

#[test]
fn port_round_trips_every_number() {
    assert!(Port::new(0).is_err());
    let mut n: u32 = 1;
    while n <= 65535 {
        let port = Port::new(n as u16).unwrap();
        assert_eq!(port.as_u16(), n as u16);
        assert_eq!(u16::from(port), n as u16);
        assert_eq!(Port::parse(&port.to_string()), Ok(port));
        n += 1;
    }
}

#[test]
fn port_parse_follows_integer_syntax() {
    assert_eq!(Port::parse("+80").unwrap().as_u16(), 80);
    assert_eq!(Port::parse("00080").unwrap().as_u16(), 80);
    assert_eq!(Port::parse("65535").unwrap().as_u16(), 65535);
    assert_eq!(Port::parse("0"), Err(PortParseError::InvalidValue(0)));
    assert_eq!(Port::parse("+0"), Err(PortParseError::InvalidValue(0)));
    assert_eq!(Port::parse("65536"), Err(PortParseError::InvalidFormat("65536".to_string())));
    assert_eq!(Port::parse("99999"), Err(PortParseError::InvalidFormat("99999".to_string())));
    assert_eq!(Port::parse("-1"), Err(PortParseError::InvalidFormat("-1".to_string())));
    assert_eq!(Port::parse("+"), Err(PortParseError::InvalidFormat("+".to_string())));
    assert_eq!(Port::parse(" 80"), Err(PortParseError::InvalidFormat(" 80".to_string())));
    assert_eq!(Port::parse("8o"), Err(PortParseError::InvalidFormat("8o".to_string())));
    assert_eq!(Port::parse(""), Err(PortParseError::InvalidFormat(String::new())));
}
