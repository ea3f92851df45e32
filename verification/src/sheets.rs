//! The spreadsheet tool's data handling: resolving a spreadsheet id out of
//! a pasted URL, and building the request URLs. The HTTP calls themselves
//! happen outside this crate.

use vstd::prelude::*;
use vstd::string::StrSliceExecFns;
use vstd::string::StringSliceAdditionalSpecFns;

use crate::mail::{url_encoded, url_encode_str};
use crate::messages::concat_str;
use crate::text::{concat_string, find_from, first_match};

verus! {

/// The spreadsheet id named by the input: for a pasted URL, what stands
/// between the id marker and the next slash; anything else is taken to be
/// the id itself.
pub open spec fn spreadsheet_id_of(input: Seq<char>) -> Seq<char> {
    let k = first_match(input, "/spreadsheets/d/"@, 0);
    if k < 0 {
        input
    } else {
        let rest = input.skip(k + "/spreadsheets/d/"@.len());
        let e = first_match(rest, "/"@, 0);
        if e < 0 {
            rest
        } else {
            rest.take(e)
        }
    }
}

/// Resolve a spreadsheet id from a raw id or a pasted URL.
pub fn extract_spreadsheet_id(input: &str) -> (r: String)
    ensures
        r@ == spreadsheet_id_of(input@),
{
    proof {
        reveal_strlit("/spreadsheets/d/");
        reveal_strlit("/");
    }
    let n = input.unicode_len();
    let marker = "/spreadsheets/d/";
    let mlen = marker.unicode_len();
    match find_from(input, marker, 0) {
        None => input.to_owned(),
        Some(k) => {
            proof {
                assert(input@.skip(k as int + marker@.len()) =~= input@.subrange(
                    (k + mlen) as int,
                    n as int,
                ));
            }
            let rest = input.substring_char(k + mlen, n);
            match find_from(rest, "/", 0) {
                None => rest.to_owned(),
                Some(e) => {
                    proof {
                        assert(rest@.take(e as int) =~= rest@.subrange(0, e as int));
                    }
                    rest.substring_char(0, e).to_owned()
                },
            }
        },
    }
}

/// The URL that reads a range of a spreadsheet; without a range, the first
/// sheet is read.
pub fn sheets_read_url(spreadsheet_input: &str, range: Option<&str>) -> (r: String)
    ensures
        ({
            let base = "https://sheets.googleapis.com/v4/spreadsheets/"@ + spreadsheet_id_of(
                spreadsheet_input@,
            ) + "/values/"@;
            match range {
                Some(rg) => r@ == base + url_encoded(rg.spec_bytes()),
                None => r@ == base + "Sheet1"@,
            }
        }),
{
    let sid = extract_spreadsheet_id(spreadsheet_input);
    let mut url = concat_str("https://sheets.googleapis.com/v4/spreadsheets/", sid.as_str());
    url = concat_string(url, "/values/");
    match range {
        Some(rg) => concat_string(url, url_encode_str(rg).as_str()),
        None => concat_string(url, "Sheet1"),
    }
}

/// The URL that overwrites a range with user-entered values.
pub fn sheets_write_url(spreadsheet_input: &str, range: &str) -> (r: String)
    ensures
        r@ == "https://sheets.googleapis.com/v4/spreadsheets/"@ + spreadsheet_id_of(
            spreadsheet_input@,
        ) + "/values/"@ + url_encoded(range.spec_bytes()) + "?valueInputOption=USER_ENTERED"@,
{
    let sid = extract_spreadsheet_id(spreadsheet_input);
    let mut url = concat_str("https://sheets.googleapis.com/v4/spreadsheets/", sid.as_str());
    url = concat_string(url, "/values/");
    url = concat_string(url, url_encode_str(range).as_str());
    url = concat_string(url, "?valueInputOption=USER_ENTERED");
    url
}

/// The URL that appends rows after a range.
pub fn sheets_append_url(spreadsheet_input: &str, range: &str) -> (r: String)
    ensures
        r@ == "https://sheets.googleapis.com/v4/spreadsheets/"@ + spreadsheet_id_of(
            spreadsheet_input@,
        ) + "/values/"@ + url_encoded(range.spec_bytes())
            + ":append?valueInputOption=USER_ENTERED&insertDataOption=INSERT_ROWS"@,
{
    let sid = extract_spreadsheet_id(spreadsheet_input);
    let mut url = concat_str("https://sheets.googleapis.com/v4/spreadsheets/", sid.as_str());
    url = concat_string(url, "/values/");
    url = concat_string(url, url_encode_str(range).as_str());
    url = concat_string(url, ":append?valueInputOption=USER_ENTERED&insertDataOption=INSERT_ROWS");
    url
}

/// The URL that lists a spreadsheet's sheet tabs.
pub fn sheets_list_url(spreadsheet_input: &str) -> (r: String)
    ensures
        r@ == "https://sheets.googleapis.com/v4/spreadsheets/"@ + spreadsheet_id_of(
            spreadsheet_input@,
        ) + "?fields=sheets.properties"@,
{
    let sid = extract_spreadsheet_id(spreadsheet_input);
    let mut url = concat_str("https://sheets.googleapis.com/v4/spreadsheets/", sid.as_str());
    url = concat_string(url, "?fields=sheets.properties");
    url
}

/// The URL that applies a batch update, such as creating a tab.
pub fn sheets_batch_update_url(spreadsheet_input: &str) -> (r: String)
    ensures
        r@ == "https://sheets.googleapis.com/v4/spreadsheets/"@ + spreadsheet_id_of(
            spreadsheet_input@,
        ) + ":batchUpdate"@,
{
    let sid = extract_spreadsheet_id(spreadsheet_input);
    let mut url = concat_str("https://sheets.googleapis.com/v4/spreadsheets/", sid.as_str());
    url = concat_string(url, ":batchUpdate");
    url
}

} // verus!
