use crate::ipv4::{is_ipv4, spec_is_ipv4};
use vstd::prelude::*;

verus! {

broadcast use {Seq::lemma_filter_push, vstd::seq_lib::group_filter_ensures};

/// The `data` fields of the DNS response body `s`: `None` when `s` is not
/// valid JSON; else the string `data` fields of the entries of the
/// top-level `Answer` array, in order, an absent or non-array `Answer`
/// giving the empty sequence.
pub uninterp spec fn dns_answer_data(s: Seq<char>) -> Option<Seq<Seq<char>>>;

/// Relies on serde_json::from_str and on matching serde_json::Value's
/// Array and String variants (what Value::as_array and Value::as_str do),
/// with serde_json::Value::get for the `Answer` and `data` keys: parses
/// the response body and collects the string `data` fields of the
/// `Answer` array's entries, in order; `None` exactly when the body is
/// not valid JSON.
#[verifier::external_body]
fn parse_answer_data(body: &str) -> (r: Option<Vec<String>>)
    ensures
        r.deep_view() == dns_answer_data(body@),
{
    let root: serde_json::Value = match serde_json::from_str(body) {
        Ok(v) => v,
        Err(_) => return None,
    };
    let mut out: Vec<String> = Vec::new();
    if let Some(serde_json::Value::Array(entries)) = root.get("Answer") {
        for entry in entries {
            if let Some(serde_json::Value::String(data)) = entry.get("data") {
                out.push(data.clone());
            }
        }
    }
    Some(out)
}

/// Why resolution failed.
#[derive(Clone, Copy, Debug, PartialEq, Eq, Structural)]
pub enum ResolveError {
    /// The response body was not valid JSON.
    Decode,
}

/// The records that are textual IPv4 addresses, in order.
pub open spec fn ipv4_records(rs: Seq<Seq<char>>) -> Seq<Seq<char>> {
    rs.filter(|s: Seq<char>| spec_is_ipv4(s))
}

/// Keeps, in order, exactly the records that are textual IPv4 addresses;
/// every address it returns is a valid one.
pub fn ipv4_only(records: &Vec<String>) -> (r: Vec<String>)
    ensures
        r.deep_view() == ipv4_records(records.deep_view()),
        forall|k: int| 0 <= k < r.deep_view().len() ==> spec_is_ipv4(r.deep_view()[k]),
{
    let ghost dv = records.deep_view();
    let mut out: Vec<String> = Vec::new();
    let mut i: usize = 0;
    proof {
        assert(dv.subrange(0, 0) =~= Seq::<Seq<char>>::empty());
        assert(ipv4_records(dv.subrange(0, 0)).len() == 0);
        assert(out.deep_view() =~~= ipv4_records(dv.subrange(0, 0)));
    }
    while i < records.len()
        invariant
            dv == records.deep_view(),
            dv.len() == records@.len(),
            i <= records.len(),
            out.deep_view() == ipv4_records(dv.subrange(0, i as int)),
        decreases records.len() - i,
    {
        let keep = is_ipv4(records[i].as_str());
        proof {
            assert(dv[i as int] == records@[i as int]@);
            assert(dv.subrange(0, i + 1) =~= dv.subrange(0, i as int).push(dv[i as int]));
        }
        if keep {
            let ghost old_ov = out.deep_view();
            out.push(records[i].clone());
            proof {
                assert(out.deep_view() =~~= old_ov.push(dv[i as int]));
                assert(ipv4_records(dv.subrange(0, i as int).push(dv[i as int])) == ipv4_records(
                    dv.subrange(0, i as int),
                ).push(dv[i as int]));
            }
        } else {
            proof {
                assert(ipv4_records(dv.subrange(0, i as int).push(dv[i as int])) == ipv4_records(
                    dv.subrange(0, i as int),
                ));
            }
        }
        i = i + 1;
    }
    proof {
        assert(dv.subrange(0, dv.len() as int) =~= dv);
        assert(forall|k: int|
            0 <= k < out.deep_view().len() ==> spec_is_ipv4(#[trigger] out.deep_view()[k]));
    }
    out
}

/// The address of the DNS-over-HTTPS query for one domain, asking the
/// endpoint for that name's records.
pub fn resolve_url(domain: &str) -> (r: String)
    ensures
        r@ == "https://dns.google/resolve?name="@ + domain@,
{
    let mut r = String::from_str("https://dns.google/resolve?name=");
    r.append(domain);
    r
}

/// Resolution from one response body: the IPv4 records of its `Answer`
/// array in response order, or the decode error exactly when the body is
/// not valid JSON.
pub fn resolve_from_body(body: &str) -> (r: Result<Vec<String>, ResolveError>)
    ensures
        r is Ok <==> dns_answer_data(body@) is Some,
        r matches Err(e) ==> e == ResolveError::Decode,
        dns_answer_data(body@) matches Some(rec) ==> r matches Ok(v) && v.deep_view()
            == ipv4_records(rec),
        r matches Ok(v) ==> forall|k: int|
            0 <= k < v.deep_view().len() ==> spec_is_ipv4(v.deep_view()[k]),
{
    match parse_answer_data(body) {
        Some(records) => Ok(ipv4_only(&records)),
        None => Err(ResolveError::Decode),
    }
}

} // verus!
