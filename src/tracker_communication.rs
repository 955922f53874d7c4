use vstd::prelude::*;
use vstd::string::*;

verus! {

/// The event a tracker announce reports.
#[derive(Debug, Clone, Copy, PartialEq, Eq, Structural)]
pub enum Event {
    Started,
    Stopped,
    Completed,
}

/// The parameters of one tracker announce.
#[derive(Debug)]
pub struct TrackerRequest {
    pub info_hash: String,
    pub peer_id: String,
    pub port: i64,
    pub uploaded: i64,
    pub downloaded: i64,
    pub left: i64,
    pub compact: i32,
    pub no_peer_id: i32,
    pub event: Event,
    pub numwant: i32,
    pub trackerid: Option<String>,
}

/// A peer's address as a tracker lists it.
#[derive(Debug, Clone)]
pub struct PeerInfo {
    pub peer_id: Option<String>,
    pub ip: String,
    pub port: i64,
}

/// A tracker's answer to an announce.
#[derive(Debug)]
pub struct TrackerResponse {
    pub failure_reason: Option<String>,
    pub warning_message: Option<String>,
    pub interval: Option<i64>,
    pub min_interval: Option<i64>,
    pub tracker_id: Option<String>,
    pub complete: Option<i64>,
    pub incomplete: Option<i64>,
    pub peers: Vec<PeerInfo>,
}

/// Whether a byte stays as it is in a percent-encoded URL component.
pub open spec fn unreserved(b: u8) -> bool {
    (48 <= b <= 57) || (65 <= b <= 90) || (97 <= b <= 122) || b == 45 || b == 46 || b == 95 || b
        == 126
}

/// The upper-case hexadecimal digit of a value below 16.
pub open spec fn hex_digit(d: u8) -> char {
    if d < 10 {
        (48 + d) as char
    } else {
        (55 + d) as char
    }
}

/// Percent-encoding of bytes: unreserved bytes as they are, every other byte
/// as `%` and two upper-case hexadecimal digits.
pub open spec fn url_escaped(b: Seq<u8>) -> Seq<char>
    decreases b.len(),
{
    if b.len() == 0 {
        Seq::empty()
    } else {
        let c = b.last();
        url_escaped(b.drop_last()) + if unreserved(c) {
            seq![c as char]
        } else {
            seq!['%', hex_digit(c / 16), hex_digit(c % 16)]
        }
    }
}

/// The character of a decimal digit.
pub open spec fn digit_char(d: nat) -> char {
    (48 + d) as char
}

/// The decimal digits of a natural number, without leading zeros.
pub open spec fn digits(n: nat) -> Seq<char>
    decreases n,
{
    if n < 10 {
        seq![digit_char(n)]
    } else {
        digits(n / 10) + seq![digit_char(n % 10)]
    }
}

/// The decimal form of an integer, with a leading `-` when negative.
pub open spec fn decimal(n: int) -> Seq<char> {
    if n < 0 {
        seq!['-'] + digits((-n) as nat)
    } else {
        digits(n as nat)
    }
}

/// The query word of an event.
pub open spec fn event_name(e: Event) -> Seq<char> {
    match e {
        Event::Started => "started"@,
        Event::Stopped => "stopped"@,
        Event::Completed => "completed"@,
    }
}

/// The announce URL of a request: the tracker's address, then every
/// parameter in a fixed order, and the tracker id only when there is one.
pub open spec fn url_of(r: TrackerRequest, announce: Seq<char>) -> Seq<char> {
    announce + "?info_hash="@ + r.info_hash@ + "&peer_id="@ + r.peer_id@ + "&port="@ + decimal(
        r.port as int,
    ) + "&uploaded="@ + decimal(r.uploaded as int) + "&downloaded="@ + decimal(
        r.downloaded as int,
    ) + "&left="@ + decimal(r.left as int) + "&compact="@ + decimal(r.compact as int)
        + "&no_peer_id="@ + decimal(r.no_peer_id as int) + "&event="@ + event_name(r.event)
        + "&numwant="@ + decimal(r.numwant as int) + match r.trackerid {
        None => Seq::<char>::empty(),
        Some(id) => "&trackerid="@ + id@,
    }
}

/// Relies on urlencoding's `encode_binary`: bytes in `0-9 A-Z a-z - . _ ~`
/// are kept, every other byte becomes `%` and two upper-case hex digits.
#[verifier::external_body]
fn url_encode(data: &[u8]) -> (r: String)
    ensures
        r@ == url_escaped(data@),
{
    urlencoding::encode_binary(data).into_owned()
}

/// The one-character text of a decimal digit.
fn digit_str(d: u64) -> (r: &'static str)
    requires
        d < 10,
    ensures
        r@ == seq![digit_char(d as nat)],
{
    if d == 0 {
        proof { reveal_strlit("0"); }
        "0"
    } else if d == 1 {
        proof { reveal_strlit("1"); }
        "1"
    } else if d == 2 {
        proof { reveal_strlit("2"); }
        "2"
    } else if d == 3 {
        proof { reveal_strlit("3"); }
        "3"
    } else if d == 4 {
        proof { reveal_strlit("4"); }
        "4"
    } else if d == 5 {
        proof { reveal_strlit("5"); }
        "5"
    } else if d == 6 {
        proof { reveal_strlit("6"); }
        "6"
    } else if d == 7 {
        proof { reveal_strlit("7"); }
        "7"
    } else if d == 8 {
        proof { reveal_strlit("8"); }
        "8"
    } else {
        proof { reveal_strlit("9"); }
        "9"
    }
}

/// Appends the decimal digits of `n`.
fn push_digits(out: &mut String, n: u64)
    ensures
        final(out)@ == old(out)@ + digits(n as nat),
    decreases n,
{
    if n >= 10 {
        push_digits(out, n / 10);
    }
    out.append(digit_str(n % 10));
    proof {
        if n >= 10 {
            assert(final(out)@ =~= old(out)@ + digits(n as nat));
        }
    }
}

/// Appends the decimal form of `n`.
fn push_decimal(out: &mut String, n: i64)
    ensures
        final(out)@ == old(out)@ + decimal(n as int),
{
    if n < 0 {
        proof { reveal_strlit("-"); }
        out.append("-");
        let magnitude: u64 = (-(n as i128)) as u64;
        push_digits(out, magnitude);
        assert(out@ =~= old(out)@ + decimal(n as int));
    } else {
        push_digits(out, n as u64);
    }
}

impl TrackerRequest {
    /// The first announce of a transfer: nothing sent or received yet, a
    /// compact peer list without ids, up to 50 peers, and the content id
    /// percent-encoded.
    pub fn start_request(info_hash: &[u8], peer_id: String, port: i64) -> (r: Self)
        ensures
            r.info_hash@ == url_escaped(info_hash@),
            r.peer_id@ == peer_id@,
            r.port == port,
            r.uploaded == 0,
            r.downloaded == 0,
            r.left == 0,
            r.compact == 1,
            r.no_peer_id == 1,
            r.event == Event::Started,
            r.numwant == 50,
            r.trackerid is None,
    {
        TrackerRequest {
            info_hash: url_encode(info_hash),
            peer_id,
            port,
            uploaded: 0,
            downloaded: 0,
            left: 0,
            compact: 1,
            no_peer_id: 1,
            event: Event::Started,
            numwant: 50,
            trackerid: None,
        }
    }

    /// The announce URL for the tracker at `announce`.
    pub fn to_url(&self, announce: &str) -> (r: String)
        ensures
            r@ == url_of(*self, announce@),
    {
        let mut url = String::from_str(announce);
        url.append("?info_hash=");
        url.append(self.info_hash.as_str());
        url.append("&peer_id=");
        url.append(self.peer_id.as_str());
        url.append("&port=");
        push_decimal(&mut url, self.port);
        url.append("&uploaded=");
        push_decimal(&mut url, self.uploaded);
        url.append("&downloaded=");
        push_decimal(&mut url, self.downloaded);
        url.append("&left=");
        push_decimal(&mut url, self.left);
        url.append("&compact=");
        push_decimal(&mut url, self.compact as i64);
        url.append("&no_peer_id=");
        push_decimal(&mut url, self.no_peer_id as i64);
        url.append("&event=");
        match self.event {
            Event::Started => url.append("started"),
            Event::Stopped => url.append("stopped"),
            Event::Completed => url.append("completed"),
        }
        url.append("&numwant=");
        push_decimal(&mut url, self.numwant as i64);
        match &self.trackerid {
            None => {},
            Some(id) => {
                url.append("&trackerid=");
                url.append(id.as_str());
            },
        }
        assert(url@ =~= url_of(*self, announce@));
        url
    }
}

} // verus!
