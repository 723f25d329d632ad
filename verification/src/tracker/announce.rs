//! The URL of an announce: the tracker's URL and the request's fields as
//! query parameters.
use vstd::prelude::*;
use vstd::string::StringExecFns;

use crate::text::{
    decimal, lemma_decimal_reads_back, percent_encoded, push_decimal, push_percent_encoded, reads_as,
};
use crate::tracker::{event_text, AnnounceRequest};

verus! {

/// The announce URL for `request` at the tracker `tracker_url`.
pub open spec fn announce_url(tracker_url: Seq<char>, request: AnnounceRequest) -> Seq<char> {
    tracker_url + "?info_hash="@ + percent_encoded(request.info_hash@) + "&peer_id="@
        + percent_encoded(request.peer_id@) + "&port="@ + decimal(request.port as nat)
        + "&uploaded="@ + decimal(request.uploaded as nat) + "&downloaded="@ + decimal(
        request.downloaded as nat,
    ) + "&left="@ + decimal(request.left as nat) + "&compact="@ + decimal(
        if request.compact {
            1nat
        } else {
            0nat
        },
    ) + "&event="@ + event_text(request.event)
}

/// Whether `url` is the query `head` followed by the numeric parameters
/// `port`, `uploaded`, `downloaded`, `left` and `compact`, written as the
/// digit runs given, and then the event.
pub open spec fn has_numeric_fields(
    url: Seq<char>,
    head: Seq<char>,
    port: Seq<char>,
    uploaded: Seq<char>,
    downloaded: Seq<char>,
    left: Seq<char>,
    compact: Seq<char>,
    event: Seq<char>,
) -> bool {
    url == head + "&port="@ + port + "&uploaded="@ + uploaded + "&downloaded="@ + downloaded
        + "&left="@ + left + "&compact="@ + compact + "&event="@ + event
}

/// Each number in an announce URL reads back, digit by digit, as the full
/// value of the request's field: the port, the bytes uploaded, downloaded
/// and left (any 64-bit value), and compact as 1 or 0; the query starts
/// with the tracker's URL and the percent-encoded info hash and peer id,
/// and ends with the event's name.
pub proof fn lemma_announce_url_reads_back(tracker_url: Seq<char>, request: AnnounceRequest)
    ensures
        exists|port: Seq<char>, up: Seq<char>, down: Seq<char>, left: Seq<char>, compact: Seq<char>|
            #[trigger] has_numeric_fields(
                announce_url(tracker_url, request),
                tracker_url + "?info_hash="@ + percent_encoded(request.info_hash@) + "&peer_id="@
                    + percent_encoded(request.peer_id@),
                port,
                up,
                down,
                left,
                compact,
                event_text(request.event),
            ) && reads_as(port, request.port as int) && reads_as(up, request.uploaded as int)
                && reads_as(down, request.downloaded as int) && reads_as(left, request.left as int)
                && reads_as(compact, if request.compact { 1int } else { 0int }),
{
    let c: nat = if request.compact {
        1nat
    } else {
        0nat
    };
    lemma_decimal_reads_back(request.port as nat);
    lemma_decimal_reads_back(request.uploaded as nat);
    lemma_decimal_reads_back(request.downloaded as nat);
    lemma_decimal_reads_back(request.left as nat);
    lemma_decimal_reads_back(c);
    assert(has_numeric_fields(
        announce_url(tracker_url, request),
        tracker_url + "?info_hash="@ + percent_encoded(request.info_hash@) + "&peer_id="@
            + percent_encoded(request.peer_id@),
        decimal(request.port as nat),
        decimal(request.uploaded as nat),
        decimal(request.downloaded as nat),
        decimal(request.left as nat),
        decimal(c),
        event_text(request.event),
    ));
}

/// The bytes percent-encoded, each as `%` and two lowercase hex digits.
pub fn url_encode_bytes(bytes: &[u8]) -> (r: String)
    ensures
        r@ == percent_encoded(bytes@),
{
    let mut s = String::new();
    push_percent_encoded(&mut s, bytes);
    assert(s@ =~= percent_encoded(bytes@));
    s
}

/// The URL that announces `request` to the tracker at `tracker_url`.
pub fn build_announce_url(tracker_url: &str, request: &AnnounceRequest) -> (r: String)
    ensures
        r@ == announce_url(tracker_url@, *request),
{
    let info_hash = url_encode_bytes(request.info_hash.as_slice());
    let peer_id = url_encode_bytes(request.peer_id.as_slice());
    let mut url = String::from_str(tracker_url);
    url.append("?info_hash=");
    url.append(info_hash.as_str());
    url.append("&peer_id=");
    url.append(peer_id.as_str());
    url.append("&port=");
    push_decimal(&mut url, request.port as u64);
    url.append("&uploaded=");
    push_decimal(&mut url, request.uploaded);
    url.append("&downloaded=");
    push_decimal(&mut url, request.downloaded);
    url.append("&left=");
    push_decimal(&mut url, request.left);
    url.append("&compact=");
    push_decimal(&mut url, if request.compact { 1 } else { 0 });
    url.append("&event=");
    let event = request.event.to_string();
    url.append(event.as_str());
    url
}

} // verus!
