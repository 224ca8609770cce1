use vstd::prelude::*;

verus! {

/// The query that announces this client to a tracker.
#[derive(Debug)]
pub struct TrackerRequest {
    /// A unique identifier for this client, twenty characters long.
    pub peer_id: String,
    /// The port this client listens on.
    pub port: u16,
    /// The total amount uploaded so far.
    pub uploaded: usize,
    /// The total amount downloaded so far.
    pub downloaded: usize,
    /// The number of bytes left to download.
    pub left: usize,
    /// Whether the peer list should come in the compact form: 1 for yes.
    pub compact: u8,
}

impl TrackerRequest {
    /// The port that the client says it listens on.
    pub const TRACKER_PORT: u16 = 6881;

    /// The request of a client that has transferred nothing yet and asks
    /// for the compact peer list.
    pub fn new(peer_id: &str, left: usize) -> (request: Self)
        ensures
            request.peer_id@ == peer_id@,
            request.port == Self::TRACKER_PORT,
            request.uploaded == 0,
            request.downloaded == 0,
            request.left == left,
            request.compact == 1,
    {
        Self {
            peer_id: peer_id.to_owned(),
            port: Self::TRACKER_PORT,
            uploaded: 0,
            downloaded: 0,
            left,
            compact: 1,
        }
    }
}

/// The lowercase hexadecimal digit for `nibble`.
pub open spec fn hex_digit(nibble: int) -> char {
    if nibble == 0 {
        '0'
    } else if nibble == 1 {
        '1'
    } else if nibble == 2 {
        '2'
    } else if nibble == 3 {
        '3'
    } else if nibble == 4 {
        '4'
    } else if nibble == 5 {
        '5'
    } else if nibble == 6 {
        '6'
    } else if nibble == 7 {
        '7'
    } else if nibble == 8 {
        '8'
    } else if nibble == 9 {
        '9'
    } else if nibble == 10 {
        'a'
    } else if nibble == 11 {
        'b'
    } else if nibble == 12 {
        'c'
    } else if nibble == 13 {
        'd'
    } else if nibble == 14 {
        'e'
    } else {
        'f'
    }
}

/// `data` in hexadecimal: two lowercase digits for each byte, the high four
/// bits first.
pub open spec fn hex_of(data: Seq<u8>) -> Seq<char> {
    Seq::new(
        2 * data.len(),
        |k: int|
            if k % 2 == 0 {
                hex_digit(data[k / 2] as int / 16)
            } else {
                hex_digit(data[k / 2] as int % 16)
            },
    )
}

/// `hex::encode`: `data` as a string of lowercase hexadecimal digits, two
/// for each byte, the high four bits first.
#[verifier::external_body]
pub(crate) fn hex_encode(data: &[u8]) -> (text: String)
    ensures
        text@ == hex_of(data@),
{
    hex::encode(data)
}

/// `String::push` appends one character.
pub assume_specification[ String::push ](text: &mut String, ch: char)
    ensures
        final(text)@ == old(text)@.push(ch),
;

/// `String::push_str` appends a string slice.
pub assume_specification[ String::push_str ](text: &mut String, string: &str)
    ensures
        final(text)@ == old(text)@ + string@,
;

/// `bytes` with every byte written as a percent sign and two hexadecimal
/// digits.
pub open spec fn percent_encoded(bytes: Seq<u8>) -> Seq<char> {
    Seq::new(
        3 * bytes.len(),
        |k: int|
            if k % 3 == 0 {
                '%'
            } else if k % 3 == 1 {
                hex_digit(bytes[k / 3] as int / 16)
            } else {
                hex_digit(bytes[k / 3] as int % 16)
            },
    )
}

/// An info hash as it stands in a tracker URL: every byte escaped, sixty
/// characters in all.
pub fn urlencode(t: &[u8; 20]) -> (encoded: String)
    ensures
        encoded@ == percent_encoded(t@),
        encoded@.len() == 60,
{
    let mut encoded = String::new();
    let mut i: usize = 0;
    while i < 20
        invariant
            i <= 20,
            encoded@ == percent_encoded(t@.take(i as int)),
        decreases 20 - i,
    {
        let one: [u8; 1] = [t[i]];
        let digits = hex_encode(one.as_slice());
        let ghost before = encoded@;
        encoded.push('%');
        encoded.push_str(digits.as_str());
        proof {
            let now = percent_encoded(t@.take(i + 1));
            assert(one@ =~= seq![t@[i as int]]);
            assert(digits@.len() == 2);
            assert(encoded@.len() == now.len());
            assert forall|k: int| 0 <= k < now.len() implies encoded@[k] == now[k] by {
                if k < 3 * i {
                    assert(encoded@[k] == before[k]);
                    assert(t@.take(i as int)[k / 3] == t@.take(i + 1)[k / 3]);
                } else {
                    assert(k / 3 == i);
                    if k > 3 * i {
                        assert(encoded@[k] == digits@[k - 3 * i - 1]);
                    }
                }
            }
            assert(encoded@ =~= now);
        }
        i = i + 1;
    }
    assert(t@.take(20) =~= t@);
    encoded
}

/// The URL of an announce: the tracker's URL, the query that describes the
/// client, and the escaped info hash as the last parameter.
pub open spec fn spec_announce_url(url: Seq<char>, params: Seq<char>, info_hash: Seq<u8>) -> Seq<
    char,
> {
    url + seq!['?'] + params + "&info_hash="@ + percent_encoded(info_hash)
}

/// Builds the URL of an announce.
pub fn announce_url(url: &str, params: &str, info_hash: &[u8; 20]) -> (full: String)
    ensures
        full@ == spec_announce_url(url@, params@, info_hash@),
{
    let mut full = url.to_owned();
    full.push('?');
    full.push_str(params);
    full.push_str("&info_hash=");
    let escaped = urlencode(info_hash);
    full.push_str(escaped.as_str());
    full
}

/// Where a peer listens: an IPv4 address and a port.
#[derive(Debug, Clone, Copy, PartialEq, Eq)]
pub struct PeerAddress {
    pub ip: [u8; 4],
    pub port: u16,
}

/// The peers that a tracker named.
#[derive(Debug, PartialEq, Eq)]
pub struct Peers(pub Vec<PeerAddress>);

/// A tracker's answer to an announce.
#[derive(Debug)]
pub struct TrackerResponse {
    /// How long to wait before the next announce, in seconds.
    pub interval: usize,
    pub peers: Peers,
}

impl Peers {
    /// Reads the compact peer list: six bytes for each peer, four of
    /// address and two of port, big-endian. A length that is no multiple of
    /// six is refused.
    pub fn from_bytes(value: &[u8]) -> (peers: Option<Peers>)
        ensures
            peers is Some <==> value@.len() % 6 == 0,
            peers matches Some(p) ==> {
                &&& p.0@.len() == value@.len() / 6
                &&& forall|i: int|
                    0 <= i < p.0@.len() ==> {
                        &&& (#[trigger] p.0@[i]).ip@ == value@.subrange(6 * i, 6 * i + 4)
                        &&& p.0@[i].port == value@[6 * i + 4] * 256 + value@[6 * i + 5]
                    }
            },
    {
        if value.len() % 6 != 0 {
            return None;
        }
        let count: usize = value.len() / 6;
        let mut out: Vec<PeerAddress> = Vec::with_capacity(count);
        let mut i: usize = 0;
        while i < count
            invariant
                i <= count,
                count * 6 == value@.len() <= usize::MAX,
                out@.len() == i,
                forall|k: int|
                    0 <= k < i ==> {
                        &&& (#[trigger] out@[k]).ip@ == value@.subrange(6 * k, 6 * k + 4)
                        &&& out@[k].port == value@[6 * k + 4] * 256 + value@[6 * k + 5]
                    },
            decreases count - i,
        {
            let at: usize = i * 6;
            let ip: [u8; 4] = [value[at], value[at + 1], value[at + 2], value[at + 3]];
            let port: u16 = value[at + 4] as u16 * 256 + value[at + 5] as u16;
            assert(ip@ =~= value@.subrange(6 * i, 6 * i + 4));
            out.push(PeerAddress { ip, port });
            i = i + 1;
        }
        Some(Peers(out))
    }
}

} // verus!
