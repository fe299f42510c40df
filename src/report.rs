use vstd::prelude::*;
use vstd::string::StringExecFns;

use crate::result::PortResult;
use crate::service::opt_view;

verus! {

/// The decimal digit that stands for `d`, for `d` below ten.
pub open spec fn digit_char(d: nat) -> char {
    if d == 0 {
        '0'
    } else if d == 1 {
        '1'
    } else if d == 2 {
        '2'
    } else if d == 3 {
        '3'
    } else if d == 4 {
        '4'
    } else if d == 5 {
        '5'
    } else if d == 6 {
        '6'
    } else if d == 7 {
        '7'
    } else if d == 8 {
        '8'
    } else {
        '9'
    }
}

/// `n` written in decimal, without leading zeros.
pub open spec fn decimal(n: nat) -> Seq<char>
    decreases n,
{
    if n < 10 {
        seq![digit_char(n)]
    } else {
        decimal(n / 10).push(digit_char(n % 10))
    }
}

fn digit_str(d: u16) -> (r: &'static str)
    requires
        d < 10,
    ensures
        r@ == seq![digit_char(d as nat)],
{
    let r = match d {
        0 => "0",
        1 => "1",
        2 => "2",
        3 => "3",
        4 => "4",
        5 => "5",
        6 => "6",
        7 => "7",
        8 => "8",
        _ => "9",
    };
    proof {
        reveal_strlit("0");
        reveal_strlit("1");
        reveal_strlit("2");
        reveal_strlit("3");
        reveal_strlit("4");
        reveal_strlit("5");
        reveal_strlit("6");
        reveal_strlit("7");
        reveal_strlit("8");
        reveal_strlit("9");
    }
    assert(r@ =~= seq![digit_char(d as nat)]);
    r
}

/// Writes `n` in decimal.
pub fn decimal_string(n: u16) -> (r: String)
    ensures
        r@ == decimal(n as nat),
    decreases n,
{
    if n < 10 {
        String::from_str(digit_str(n))
    } else {
        let mut s = decimal_string(n / 10);
        s.append(digit_str(n % 10));
        s
    }
}

/// The line a terminal shows for an open port: `<port> is open - <service>`,
/// or `<port> is open` where the table knows no service.
pub open spec fn open_port_line_spec(port: u16, service: Option<Seq<char>>) -> Seq<char> {
    match service {
        Some(name) => decimal(port as nat) + " is open - "@ + name,
        None => decimal(port as nat) + " is open"@,
    }
}

/// The row a results list shows for an open port:
/// `Port: <port>, Status: open, Service: <service or ->`.
pub open spec fn result_row_spec(port: u16, service: Option<Seq<char>>) -> Seq<char> {
    "Port: "@ + decimal(port as nat) + ", Status: open, Service: "@ + match service {
        Some(name) => name,
        None => "-"@,
    }
}

/// Formats an open port as one terminal line.
pub fn open_port_line(r: &PortResult) -> (line: String)
    ensures
        line@ == open_port_line_spec(r.port, opt_view(r.service)),
{
    let mut line = decimal_string(r.port);
    match &r.service {
        Some(name) => {
            line.append(" is open - ");
            line.append(name.as_str());
        },
        None => {
            line.append(" is open");
        },
    }
    line
}

/// Formats an open port as one row of a results list.
pub fn result_row(r: &PortResult) -> (row: String)
    ensures
        row@ == result_row_spec(r.port, opt_view(r.service)),
{
    let mut row = String::from_str("Port: ");
    let port = decimal_string(r.port);
    row.append(port.as_str());
    row.append(", Status: open, Service: ");
    match &r.service {
        Some(name) => {
            row.append(name.as_str());
        },
        None => {
            row.append("-");
        },
    }
    row
}

} // verus!
