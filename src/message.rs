//! A syslog record as the rules see it, and the selection of the field a
//! rule matches against.

use vstd::prelude::*;
use vstd::utf8::encode_utf8;

verus! {

/// One parsed syslog record: its free-text body and its metadata.
#[derive(Clone, Debug, PartialEq, Eq)]
pub struct ParsedMessage {
    pub msg: String,
    pub hostname: Option<String>,
    pub appname: Option<String>,
    pub procid: Option<String>,
}

/// The model of an optional string.
pub open spec fn opt_view(o: Option<String>) -> Option<Seq<char>> {
    match o {
        Some(s) => Some(s@),
        None => None,
    }
}

/// The model of a sequence of optional strings.
pub open spec fn opts_view(s: Seq<Option<String>>) -> Seq<Option<Seq<char>>> {
    Seq::new(s.len(), |i: int| opt_view(s[i]))
}

/// The model of a `ParsedMessage`.
pub struct MessageV {
    pub msg: Seq<char>,
    pub hostname: Option<Seq<char>>,
    pub appname: Option<Seq<char>>,
    pub procid: Option<Seq<char>>,
}

impl View for ParsedMessage {
    type V = MessageV;

    open spec fn view(&self) -> MessageV {
        MessageV {
            msg: self.msg@,
            hostname: opt_view(self.hostname),
            appname: opt_view(self.appname),
            procid: opt_view(self.procid),
        }
    }
}

/// The fields of the record that a syslog line denotes (body, hostname,
/// appname, process id), or `None` where the line is not valid RFC 5424.
pub uninterp spec fn syslog_fields(line: Seq<char>) -> Option<
    (Seq<char>, Option<Seq<char>>, Option<Seq<char>>, Option<Seq<char>>),
>;

/// The position of the first space byte at or after `from`, or the length.
pub open spec fn first_space(b: Seq<u8>, from: int) -> int
    decreases b.len() - from,
{
    if from < 0 || from >= b.len() {
        b.len() as int
    } else if b[from] == 32u8 {
        from
    } else {
        first_space(b, from + 1)
    }
}

/// Whether the five bytes after position `i` exist and are all ASCII.
pub open spec fn five_ascii_after(b: Seq<u8>, i: int) -> bool {
    i + 5 < b.len() && forall|j: int| i < j <= i + 5 ==> b[j] < 128u8
}

/// Whether a UTC offset in the timestamp can be read: in the second
/// space-separated field of the line's bytes (the timestamp), every `+` or
/// `-` is followed by at least five bytes, all ASCII.  The parser reads the
/// offset `+hh:mm` at fixed byte positions without checking them first.
pub open spec fn offset_readable(b: Seq<u8>) -> bool {
    let s = first_space(b, 0);
    let e = first_space(b, s + 1);
    forall|i: int|
        s < i < e && (b[i] == 43u8 || b[i] == 45u8) ==> #[trigger] five_ascii_after(b, i)
}

/// The record a line parses to, in the model; `None` also for a line whose
/// timestamp offset cannot be read safely (see `offset_readable`).
pub open spec fn parsed_line(line: Seq<char>) -> Option<MessageV> {
    if !offset_readable(encode_utf8(line)) {
        None
    } else {
        match syslog_fields(line) {
            Some(f) => Some(MessageV { msg: f.0, hostname: f.1, appname: f.2, procid: f.3 }),
            None => None,
        }
    }
}

/// Tests `offset_readable` on the bytes of a line.
pub fn check_offset(line: &str) -> (r: bool)
    ensures
        r == offset_readable(encode_utf8(line@)),
{
    let b = line.as_bytes();
    let n = b.len();
    let ghost bv = b@;
    let mut s: usize = 0;
    while s < n && b[s] != 32u8
        invariant
            s <= n,
            n == bv.len(),
            bv == b@,
            bv == encode_utf8(line@),
            first_space(bv, 0) == first_space(bv, s as int),
        decreases n - s,
    {
        s = s + 1;
    }
    if s >= n {
        return true;
    }
    let mut e: usize = s + 1;
    while e < n && b[e] != 32u8
        invariant
            s < e <= n,
            n == bv.len(),
            bv == b@,
            bv == encode_utf8(line@),
            first_space(bv, s + 1) == first_space(bv, e as int),
        decreases n - e,
    {
        e = e + 1;
    }
    let mut i: usize = s + 1;
    while i < e
        invariant
            s < i <= e,
            e <= n,
            n == bv.len(),
            bv == b@,
            bv == encode_utf8(line@),
            s as int == first_space(bv, 0),
            e as int == first_space(bv, s + 1),
            forall|k: int|
                s < k < i && (bv[k] == 43u8 || bv[k] == 45u8) ==> #[trigger] five_ascii_after(bv, k),
        decreases e - i,
    {
        if b[i] == 43u8 || b[i] == 45u8 {
            if !(n - i > 5 && b[i + 1] < 128u8 && b[i + 2] < 128u8 && b[i + 3] < 128u8
                && b[i + 4] < 128u8 && b[i + 5] < 128u8) {
                proof {
                    assert(!five_ascii_after(bv, i as int));
                    assert(s < i < e && (bv[i as int] == 43u8 || bv[i as int] == 45u8));
                    assert(!offset_readable(bv));
                }
                return false;
            }
            proof {
                assert(five_ascii_after(bv, i as int));
            }
        }
        i = i + 1;
    }
    true
}

/// Relies on syslog_rfc5424::parse_message: the record's fields, or an
/// error where the line is not a valid RFC 5424 record.  It slices the
/// timestamp's UTC offset at fixed byte positions and panics where those are
/// missing or split a character, hence the `requires`.
#[verifier::external_body]
fn parse_syslog(line: &str) -> (r: Option<ParsedMessage>)
    requires
        offset_readable(encode_utf8(line@)),
    ensures
        match r {
            Some(m) => syslog_fields(line@) == Some(
                (m.msg@, opt_view(m.hostname), opt_view(m.appname), opt_view(m.procid)),
            ),
            None => syslog_fields(line@) is None,
        },
{
    syslog_rfc5424::parse_message(line).ok().map(|m| ParsedMessage {
        msg: m.msg,
        hostname: m.hostname,
        appname: m.appname,
        procid: m.procid.map(|p| match p {
            syslog_rfc5424::message::ProcId::PID(n) => n.to_string(),
            syslog_rfc5424::message::ProcId::Name(s) => s,
        }),
    })
}

impl ParsedMessage {
    /// Parses one syslog line; `None` where it is not a valid record, or
    /// where its timestamp's offset cannot be read safely.
    pub fn parse(line: &str) -> (r: Option<ParsedMessage>)
        ensures
            match r {
                Some(m) => parsed_line(line@) == Some(m@),
                None => parsed_line(line@) is None,
            },
    {
        if !check_offset(line) {
            return None;
        }
        parse_syslog(line)
    }
}

/// The part of a record that a rule matches against.  Only the body is
/// wired up; the others are recognised and select nothing.
#[derive(Clone, Copy, Debug, PartialEq, Eq)]
pub enum Field {
    Msg,
    Hostname,
    Appname,
    Procid,
}

/// The text a field selects from a record, `None` for a field not wired up.
pub open spec fn selected(field: Field, m: MessageV) -> Option<Seq<char>> {
    match field {
        Field::Msg => Some(m.msg),
        _ => None,
    }
}

/// The text `field` selects from `m`, or `None` where that field is not
/// supported.
pub fn select_field(field: Field, m: &ParsedMessage) -> (r: Option<&String>)
    ensures
        match r {
            Some(s) => selected(field, m@) == Some(s@),
            None => selected(field, m@) is None,
        },
{
    match field {
        Field::Msg => Some(&m.msg),
        _ => None,
    }
}

} // verus!
