//! Join parameters, read from the query string of a connection request.
use vstd::prelude::*;
use crate::protocol::opt_text;

verus! {

/// The key/value pairs that a form-urlencoded text decodes to, in order,
/// or `None` when it does not decode.
pub uninterp spec fn query_pairs(query: Seq<char>) -> Option<Seq<(Seq<char>, Seq<char>)>>;

/// The views of a sequence of string pairs.
pub open spec fn pairs_view(v: Seq<(String, String)>) -> Seq<(Seq<char>, Seq<char>)> {
    v.map_values(|p: (String, String)| (p.0@, p.1@))
}

/// Relies on serde_urlencoded::from_str::<Vec<(String, String)>>: the
/// decoded pairs of a query string, in order.
#[verifier::external_body]
fn decode_query(query: &str) -> (r: Option<Vec<(String, String)>>)
    ensures
        match r {
            Some(v) => query_pairs(query@) == Some(pairs_view(v@)),
            None => query_pairs(query@) is None,
        },
{
    serde_urlencoded::from_str::<Vec<(String, String)>>(query).ok()
}

/// The value of the last pair whose key is `key`: a repeated key takes
/// its last value.
pub open spec fn last_value(pairs: Seq<(Seq<char>, Seq<char>)>, key: Seq<char>) -> Option<Seq<char>>
    decreases pairs.len(),
{
    if pairs.len() == 0 {
        None
    } else if pairs.last().0 == key {
        Some(pairs.last().1)
    } else {
        last_value(pairs.drop_last(), key)
    }
}

/// The pairs of a query string; one that does not decode has none.
pub open spec fn query_params_of(query: Seq<char>) -> Seq<(Seq<char>, Seq<char>)> {
    match query_pairs(query) {
        Some(p) => p,
        None => Seq::empty(),
    }
}

/// Decodes a query string into its pairs; one that does not decode gives
/// no pairs.
pub fn query_params(query: &str) -> (r: Vec<(String, String)>)
    ensures
        pairs_view(r@) == query_params_of(query@),
{
    match decode_query(query) {
        Some(v) => v,
        None => {
            let v: Vec<(String, String)> = Vec::new();
            assert(pairs_view(v@) =~= Seq::<(Seq<char>, Seq<char>)>::empty());
            v
        },
    }
}

/// The value of parameter `key`; the last one when it is repeated.
pub fn param(pairs: &Vec<(String, String)>, key: &str) -> (r: Option<String>)
    ensures
        opt_text(r) == last_value(pairs_view(pairs@), key@),
{
    let k = key.to_owned();
    let mut i: usize = pairs.len();
    assert(pairs_view(pairs@).take(i as int) =~= pairs_view(pairs@));
    while i > 0
        invariant
            i <= pairs@.len(),
            k@ == key@,
            last_value(pairs_view(pairs@), key@) == last_value(pairs_view(pairs@).take(i as int), key@),
        decreases i,
    {
        let ghost t = pairs_view(pairs@).take(i as int);
        assert(t.drop_last() =~= pairs_view(pairs@).take(i - 1));
        if pairs[i - 1].0 == k {
            return Some(pairs[i - 1].1.clone());
        }
        i = i - 1;
    }
    None
}

/// Why a connection request is refused before the transport is upgraded.
#[derive(PartialEq, Eq, Debug)]
pub enum JoinError {
    /// A required parameter, named here, is absent or empty.
    MissingParameter(String),
    /// A secondary named a primary that has no channel.
    ChannelNotFound,
}

/// The reason given to the client for a refused request.
pub open spec fn join_error_text(e: JoinError) -> Seq<char> {
    match e {
        JoinError::MissingParameter(p) => "Missing '"@ + p@ + "' query parameter"@,
        JoinError::ChannelNotFound => "Streamer does not exist"@,
    }
}

impl JoinError {
    /// The human-readable reason for the refusal.
    pub fn message(&self) -> (r: String)
        ensures
            r@ == join_error_text(*self),
    {
        match self {
            JoinError::MissingParameter(p) => {
                let mut r = "Missing '".to_owned();
                r.append(p.as_str());
                r.append("' query parameter");
                r
            },
            JoinError::ChannelNotFound => "Streamer does not exist".to_owned(),
        }
    }
}

/// The result owed for the required parameter `key`: its value when it
/// is present and non-empty, else `MissingParameter(key)`.
pub open spec fn required_result(
    pairs: Seq<(Seq<char>, Seq<char>)>,
    key: Seq<char>,
    r: Result<String, JoinError>,
) -> bool {
    match last_value(pairs, key) {
        Some(v) if v.len() > 0 => r matches Ok(s) && s@ == v,
        _ => r matches Err(JoinError::MissingParameter(p)) && p@ == key,
    }
}

/// The value of the required parameter `key`.
pub fn required_param(pairs: &Vec<(String, String)>, key: &str) -> (r: Result<String, JoinError>)
    ensures
        required_result(pairs_view(pairs@), key@, r),
{
    match param(pairs, key) {
        Some(v) => {
            if v.as_str().is_empty() {
                Err(JoinError::MissingParameter(key.to_owned()))
            } else {
                Ok(v)
            }
        },
        None => Err(JoinError::MissingParameter(key.to_owned())),
    }
}

/// A request to join `channel` as `identity`.
pub struct JoinRequest {
    pub channel: String,
    pub identity: String,
}

/// Reads a request to join the symmetric channel `channel` as `id`.
pub fn room_request(query: &str) -> (r: Result<JoinRequest, JoinError>)
    ensures
        ({
            let p = query_params_of(query@);
            match last_value(p, "channel"@) {
                Some(c) if c.len() > 0 => match last_value(p, "id"@) {
                    Some(i) if i.len() > 0 => r matches Ok(q) && q.channel@ == c && q.identity@ == i,
                    _ => r matches Err(JoinError::MissingParameter(k)) && k@ == "id"@,
                },
                _ => r matches Err(JoinError::MissingParameter(k)) && k@ == "channel"@,
            }
        }),
{
    let pairs = query_params(query);
    let channel = match required_param(&pairs, "channel") {
        Ok(c) => c,
        Err(e) => {
            return Err(e);
        },
    };
    let identity = match required_param(&pairs, "id") {
        Ok(i) => i,
        Err(e) => {
            return Err(e);
        },
    };
    Ok(JoinRequest { channel, identity })
}

/// Reads a primary's request: its identity `id`, which also names its
/// channel.
pub fn primary_request(query: &str) -> (r: Result<String, JoinError>)
    ensures
        required_result(query_params_of(query@), "id"@, r),
{
    let pairs = query_params(query);
    required_param(&pairs, "id")
}

/// Reads a secondary's request: its identity `id` and the primary
/// `streamer_id` whose channel it joins. `id` is checked first.
pub fn secondary_request(query: &str) -> (r: Result<JoinRequest, JoinError>)
    ensures
        ({
            let p = query_params_of(query@);
            match last_value(p, "id"@) {
                Some(i) if i.len() > 0 => match last_value(p, "streamer_id"@) {
                    Some(c) if c.len() > 0 => r matches Ok(q) && q.channel@ == c && q.identity@ == i,
                    _ => r matches Err(JoinError::MissingParameter(k)) && k@ == "streamer_id"@,
                },
                _ => r matches Err(JoinError::MissingParameter(k)) && k@ == "id"@,
            }
        }),
{
    let pairs = query_params(query);
    let identity = match required_param(&pairs, "id") {
        Ok(i) => i,
        Err(e) => {
            return Err(e);
        },
    };
    let channel = match required_param(&pairs, "streamer_id") {
        Ok(c) => c,
        Err(e) => {
            return Err(e);
        },
    };
    Ok(JoinRequest { channel, identity })
}

} // verus!
