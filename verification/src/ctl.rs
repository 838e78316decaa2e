//! The operator CLI's formatting: request URLs, failure messages and the
//! device table.

use crate::protocol::DeviceSummary;
use crate::text::{
    chars_of, concat2, decimal_text, format_decimal, owned, pad_right, push_padded, push_str,
    string_from_chars, trim, trim_chars, trim_end_char, trim_end_char_vec,
};
use vstd::prelude::*;

verus! {

/// The URL of an API path: the control URL without trailing `/`, then the path.
pub fn request_url(control_url: &str, path: &str) -> (out: String)
    ensures
        out@ == trim_end_char(control_url@, '/') + path@,
{
    let cs = chars_of(control_url);
    let base = trim_end_char_vec(cs.as_slice(), '/');
    let mut out = string_from_chars(base.as_slice());
    push_str(&mut out, path);
    out
}

/// An HTTP status as the CLI reports it: the code and its reason phrase,
/// `HTTP error` where the status has none.
pub open spec fn status_text(code: u16, reason: Option<Seq<char>>) -> Seq<char> {
    decimal_text(code as nat) + " "@ + match reason {
        Some(r) => r,
        None => "HTTP error"@,
    }
}

/// The error for a failed request: the status, then the API's error text
/// where the body holds one, else the trimmed body where it is not blank.
pub open spec fn failure_text(code: u16, reason: Option<Seq<char>>, body: Seq<char>, api_error: Option<Seq<char>>) -> Seq<char> {
    match api_error {
        Some(e) => "control plane returned "@ + status_text(code, reason) + ": "@ + e,
        None => if trim(body).len() == 0 {
            "control plane returned "@ + status_text(code, reason)
        } else {
            "control plane returned "@ + status_text(code, reason) + ": "@ + trim(body)
        },
    }
}

/// The message of a failed request. `api_error` is the `error` field of the
/// body where the body is an API error document.
pub fn failure_message(code: u16, reason: Option<&str>, body: &str, api_error: Option<&str>) -> (out: String)
    ensures
        out@ == failure_text(
            code,
            match reason {
                Some(r) => Some(r@),
                None => None,
            },
            body@,
            match api_error {
                Some(e) => Some(e@),
                None => None,
            },
        ),
{
    let mut status = format_decimal(code as u64);
    push_str(&mut status, " ");
    match reason {
        Some(r) => push_str(&mut status, r),
        None => push_str(&mut status, "HTTP error"),
    }
    let mut out = concat2("control plane returned ", status.as_str());
    match api_error {
        Some(e) => {
            push_str(&mut out, ": ");
            push_str(&mut out, e);
        },
        None => {
            let trimmed = trim_chars(body);
            if trimmed.len() > 0 {
                push_str(&mut out, ": ");
                let t = string_from_chars(trimmed.as_slice());
                push_str(&mut out, t.as_str());
            }
        },
    }
    out
}

/// The header of the device table.
pub open spec fn device_header_text() -> Seq<char> {
    pad_right("ID"@, 28) + " "@ + pad_right("HOSTNAME"@, 20) + " "@ + pad_right("IPV4"@, 15) + " "@ + pad_right(
        "OS"@,
        10,
    ) + " "@ + pad_right("ARCH"@, 8) + " "@ + pad_right("BACKEND"@, 10) + " LAST_SEEN"@
}

/// A row of the device table.
pub open spec fn device_row_text(d: DeviceSummary) -> Seq<char> {
    pad_right(d.id@, 28) + " "@ + pad_right(d.hostname@, 20) + " "@ + pad_right(d.ipv4@, 15) + " "@
        + pad_right(d.os@, 10) + " "@ + pad_right(d.arch@, 8) + " "@ + pad_right(d.backend_type@, 10) + " "@
        + match d.last_seen_at {
        Some(t) => t@,
        None => "-"@,
    }
}

/// The device table: the header, then a row per device.
pub fn device_table(devices: &[DeviceSummary]) -> (out: Vec<String>)
    ensures
        out@.len() == devices@.len() + 1,
        out@[0]@ == device_header_text(),
        forall|i: int| 0 <= i < devices@.len() ==> #[trigger] out@[i + 1]@ == device_row_text(devices@[i]),
{
    let mut header = String::new();
    push_padded(&mut header, "ID", 28);
    push_str(&mut header, " ");
    push_padded(&mut header, "HOSTNAME", 20);
    push_str(&mut header, " ");
    push_padded(&mut header, "IPV4", 15);
    push_str(&mut header, " ");
    push_padded(&mut header, "OS", 10);
    push_str(&mut header, " ");
    push_padded(&mut header, "ARCH", 8);
    push_str(&mut header, " ");
    push_padded(&mut header, "BACKEND", 10);
    push_str(&mut header, " LAST_SEEN");
    proof {
        assert(header@ =~= device_header_text());
    }
    let mut out: Vec<String> = Vec::new();
    out.push(header);
    let mut i: usize = 0;
    while i < devices.len()
        invariant
            i <= devices@.len(),
            out@.len() == i + 1,
            out@[0]@ == device_header_text(),
            forall|j: int| 0 <= j < i ==> #[trigger] out@[j + 1]@ == device_row_text(devices@[j]),
        decreases devices.len() - i,
    {
        let d = &devices[i];
        let mut row = String::new();
        push_padded(&mut row, d.id.as_str(), 28);
        push_str(&mut row, " ");
        push_padded(&mut row, d.hostname.as_str(), 20);
        push_str(&mut row, " ");
        push_padded(&mut row, d.ipv4.as_str(), 15);
        push_str(&mut row, " ");
        push_padded(&mut row, d.os.as_str(), 10);
        push_str(&mut row, " ");
        push_padded(&mut row, d.arch.as_str(), 8);
        push_str(&mut row, " ");
        push_padded(&mut row, d.backend_type.as_str(), 10);
        push_str(&mut row, " ");
        match &d.last_seen_at {
            Some(t) => push_str(&mut row, t.as_str()),
            None => push_str(&mut row, "-"),
        }
        proof {
            assert(row@ =~= device_row_text(devices@[i as int]));
        }
        out.push(row);
        i = i + 1;
    }
    out
}

} // verus!
