use vstd::prelude::*;

verus! {

/// The well-known service that listens on `port` by convention, if the table
/// holds one.
pub open spec fn service_of(port: u16) -> Option<Seq<char>> {
    if port == 20 {
        Some("FTP-DATA"@)
    } else if port == 21 {
        Some("FTP"@)
    } else if port == 22 {
        Some("SSH"@)
    } else if port == 23 {
        Some("TELNET"@)
    } else if port == 25 {
        Some("SMTP"@)
    } else if port == 53 {
        Some("DNS"@)
    } else if port == 80 {
        Some("HTTP"@)
    } else if port == 110 {
        Some("POP3"@)
    } else if port == 143 {
        Some("IMAP"@)
    } else if port == 443 {
        Some("HTTPS"@)
    } else if port == 993 {
        Some("IMAPS"@)
    } else if port == 995 {
        Some("POP3S"@)
    } else {
        None
    }
}

/// The view of an optional string.
pub open spec fn opt_view(s: Option<String>) -> Option<Seq<char>> {
    match s {
        Some(t) => Some(t@),
        None => None,
    }
}

/// Looks `port` up in the table of well-known services.
pub fn get_service_name(port: u16) -> (r: Option<String>)
    ensures
        opt_view(r) == service_of(port),
{
    let name: &str = match port {
        20 => "FTP-DATA",
        21 => "FTP",
        22 => "SSH",
        23 => "TELNET",
        25 => "SMTP",
        53 => "DNS",
        80 => "HTTP",
        110 => "POP3",
        143 => "IMAP",
        443 => "HTTPS",
        993 => "IMAPS",
        995 => "POP3S",
        _ => {
            return None;
        },
    };
    Some(name.to_string())
}

} // verus!
