//! The Qwen platform's model list: the form-encoded request and the reading of
//! the reply.

use vstd::prelude::*;
use crate::json::{Json, JsonV, jat, jstr};
use crate::text::{dec, dec_string, push_str, strs};
use vstd::string::StringSliceAdditionalSpecFns;
use crate::state::{truncate_spec, truncate_str};

verus! {

/// Bytes that form encoding keeps as they are.
pub open spec fn unreserved(b: u8) -> bool {
    (65 <= b <= 90) || (97 <= b <= 122) || (48 <= b <= 57) || b == 45 || b == 95 || b == 46 || b == 126
}

/// The upper-case hexadecimal digit of `n < 16`.
pub open spec fn hex_digit(n: u8) -> char {
    seq!['0', '1', '2', '3', '4', '5', '6', '7', '8', '9', 'A', 'B', 'C', 'D', 'E', 'F'][n as int]
}

/// One byte, form-encoded.
pub open spec fn encode_byte(b: u8) -> Seq<char> {
    if unreserved(b) {
        seq![b as char]
    } else {
        seq!['%', hex_digit(b / 16), hex_digit(b % 16)]
    }
}

/// Bytes, form-encoded (`application/x-www-form-urlencoded` values).
pub open spec fn url_encode_spec(bs: Seq<u8>) -> Seq<char>
    decreases bs.len(),
{
    if bs.len() == 0 {
        Seq::<char>::empty()
    } else {
        url_encode_spec(bs.drop_last()) + encode_byte(bs.last())
    }
}

fn encode_byte_exec(out: &mut String, b: u8)
    ensures
        final(out)@ == old(out)@ + encode_byte(b),
{
    let digits: [char; 16] = ['0', '1', '2', '3', '4', '5', '6', '7', '8', '9', 'A', 'B', 'C', 'D', 'E', 'F'];
    assert(digits@ =~= seq!['0', '1', '2', '3', '4', '5', '6', '7', '8', '9', 'A', 'B', 'C', 'D', 'E', 'F']);
    if (65 <= b && b <= 90) || (97 <= b && b <= 122) || (48 <= b && b <= 57) || b == 45 || b == 95 || b == 46 || b == 126 {
        let ghost o = out@;
        crate::text::push_char(out, b as char);
        assert(out@ =~= o + seq![b as char]);
    } else {
        let ghost o = out@;
        crate::text::push_char(out, '%');
        crate::text::push_char(out, digits[(b / 16) as usize]);
        crate::text::push_char(out, digits[(b % 16) as usize]);
        assert(out@ =~= o + seq!['%', hex_digit(b / 16), hex_digit(b % 16)]);
    }
}

/// Form-encodes the UTF-8 bytes of `s`.
pub fn url_encode(s: &str) -> (r: String)
    ensures
        r@ == url_encode_spec(s.spec_bytes()),
{
    let bs = s.as_bytes();
    let mut out = String::new();
    let mut i: usize = 0;
    while i < bs.len()
        invariant
            i <= bs@.len(),
            bs@ == s.spec_bytes(),
            out@ == url_encode_spec(bs@.take(i as int)),
        decreases bs@.len() - i,
    {
        assert(bs@.take(i + 1).drop_last() =~= bs@.take(i as int));
        assert(bs@.take(i + 1).last() == bs@[i as int]);
        encode_byte_exec(&mut out, bs[i]);
        i += 1;
    }
    assert(bs@.take(bs@.len() as int) =~= bs@);
    out
}

/// The form body of the model-list request, given the `params` JSON text.
pub fn model_list_form(params: &str) -> (r: String)
    ensures
        r@ == "product="@ + url_encode_spec("sfm_bailian".spec_bytes()) + "&action="@
            + url_encode_spec("BroadScopeAspnGateway".spec_bytes()) + "&region="@
            + url_encode_spec("cn-beijing".spec_bytes()) + "&params="@ + url_encode_spec(params.spec_bytes()),
{
    let mut r = String::from_str("product=");
    push_str(&mut r, url_encode("sfm_bailian").as_str());
    push_str(&mut r, "&action=");
    push_str(&mut r, url_encode("BroadScopeAspnGateway").as_str());
    push_str(&mut r, "&region=");
    push_str(&mut r, url_encode("cn-beijing").as_str());
    push_str(&mut r, "&params=");
    push_str(&mut r, url_encode(params).as_str());
    r
}

/// The outcome of the list request's HTTP status: any 2xx goes on to read the
/// reply; any other status is the error `HTTP <code>`.
pub open spec fn model_status_spec(status: u16) -> Result<(), Seq<char>> {
    if 200 <= status < 300 { Ok(()) } else { Err("HTTP "@ + dec(status as nat)) }
}

/// The outcome of the list request's HTTP status.
pub fn model_status(status: u16) -> (r: Result<(), String>)
    ensures
        match (r, model_status_spec(status)) {
            (Ok(()), Ok(())) => true,
            (Err(e), Err(f)) => e@ == f,
            _ => false,
        },
{
    if 200 <= status && status < 300 {
        Ok(())
    } else {
        let mut e = String::from_str("HTTP ");
        push_str(&mut e, dec_string(status as u128).as_str());
        Err(e)
    }
}

/// The strings among the items, in order.
pub open spec fn string_items(a: Seq<JsonV>) -> Seq<Seq<char>>
    decreases a.len(),
{
    if a.len() == 0 {
        Seq::<Seq<char>>::empty()
    } else {
        match jstr(a.last()) {
            Some(s) => string_items(a.drop_last()).push(s),
            None => string_items(a.drop_last()),
        }
    }
}

/// The model ids of the reply (`data.DataV2.data.data`, its strings); `text` is
/// the reply's JSON text, quoted in the error for an unexpected shape.
pub open spec fn model_ids_spec(v: JsonV, text: Seq<char>) -> Result<Seq<Seq<char>>, Seq<char>> {
    match jat(jat(jat(jat(v, "data"@), "DataV2"@), "data"@), "data"@) {
        JsonV::Array(a) => if string_items(a).len() > 0 {
            Ok(string_items(a))
        } else {
            Err("接口返回的模型列表为空"@)
        },
        _ => Err("接口返回结构异常："@ + truncate_spec(text, 300)),
    }
}

/// The model ids of the reply.
pub fn model_ids(v: &Json, text: &str) -> (r: Result<Vec<String>, String>)
    ensures
        match r {
            Ok(ids) => model_ids_spec(v@, text@) == Ok::<Seq<Seq<char>>, Seq<char>>(strs(ids@)),
            Err(e) => model_ids_spec(v@, text@) == Err::<Seq<Seq<char>>, Seq<char>>(e@),
        },
{
    let list = v.member("data").member("DataV2").member("data").member("data");
    match list {
        Json::Array(a) => {
            proof { crate::json::lemma_items_view(a@); }
            let ghost s = crate::json::items_view(a@);
            let mut ids: Vec<String> = Vec::new();
            let mut i: usize = 0;
            while i < a.len()
                invariant
                    i <= a@.len(),
                    s == crate::json::items_view(a@),
                    s.len() == a@.len(),
                    forall|k: int| 0 <= k < a@.len() ==> #[trigger] s[k] == a@[k]@,
                    strs(ids@) == string_items(s.take(i as int)),
                decreases a@.len() - i,
            {
                assert(s.take(i + 1).drop_last() =~= s.take(i as int));
                assert(s.take(i + 1).last() == s[i as int]);
                match a[i].as_str() {
                    Some(x) => {
                        let ghost before = ids@;
                        ids.push(String::from_str(x));
                        assert(strs(ids@) =~= strs(before).push(x@));
                    },
                    None => {},
                }
                i += 1;
            }
            assert(s.take(a@.len() as int) =~= s);
            if ids.len() == 0 {
                Err(String::from_str("接口返回的模型列表为空"))
            } else {
                Ok(ids)
            }
        },
        _ => {
            let mut e = String::from_str("接口返回结构异常：");
            push_str(&mut e, truncate_str(text, 300).as_str());
            Err(e)
        },
    }
}

// ---------- decoding ----------

/// The value of a hexadecimal digit (either case).
pub open spec fn hex_value(c: char) -> int {
    if '0' <= c && c <= '9' {
        c as int - '0' as int
    } else if 'A' <= c && c <= 'F' {
        c as int - 'A' as int + 10
    } else if 'a' <= c && c <= 'f' {
        c as int - 'a' as int + 10
    } else {
        0
    }
}

/// Form decoding: `%XY` is the byte `0xXY`, any other character its own code.
pub open spec fn url_decode_spec(s: Seq<char>) -> Seq<u8>
    decreases s.len(),
{
    if s.len() == 0 {
        Seq::<u8>::empty()
    } else if s[0] == '%' && s.len() >= 3 {
        seq![(hex_value(s[1]) * 16 + hex_value(s[2])) as u8] + url_decode_spec(s.skip(3))
    } else {
        seq![s[0] as u8] + url_decode_spec(s.skip(1))
    }
}

proof fn lemma_hex_digit(n: u8)
    requires
        n < 16,
    ensures
        hex_value(hex_digit(n)) == n,
{
    let d = seq!['0', '1', '2', '3', '4', '5', '6', '7', '8', '9', 'A', 'B', 'C', 'D', 'E', 'F'];
    assert(hex_digit(n) == d[n as int]);
    if n == 0 { assert(d[0] == '0'); } else if n == 1 { assert(d[1] == '1'); } else if n == 2 { assert(d[2] == '2'); }
    else if n == 3 { assert(d[3] == '3'); } else if n == 4 { assert(d[4] == '4'); } else if n == 5 { assert(d[5] == '5'); }
    else if n == 6 { assert(d[6] == '6'); } else if n == 7 { assert(d[7] == '7'); } else if n == 8 { assert(d[8] == '8'); }
    else if n == 9 { assert(d[9] == '9'); } else if n == 10 { assert(d[10] == 'A'); } else if n == 11 { assert(d[11] == 'B'); }
    else if n == 12 { assert(d[12] == 'C'); } else if n == 13 { assert(d[13] == 'D'); } else if n == 14 { assert(d[14] == 'E'); }
    else { assert(d[15] == 'F'); }
}

proof fn lemma_decode_byte(b: u8, rest: Seq<char>)
    ensures
        url_decode_spec(encode_byte(b) + rest) == seq![b] + url_decode_spec(rest),
{
    let e = encode_byte(b);
    if unreserved(b) {
        assert((e + rest)[0] == b as char);
        assert((e + rest).skip(1) =~= rest);
        assert((b as char) as u8 == b);
    } else {
        lemma_hex_digit(b / 16);
        lemma_hex_digit(b % 16);
        assert((e + rest)[0] == '%');
        assert((e + rest)[1] == hex_digit(b / 16));
        assert((e + rest)[2] == hex_digit(b % 16));
        assert((e + rest).skip(3) =~= rest);
        assert((b / 16) * 16 + b % 16 == b);
    }
}

proof fn lemma_encode_front(bs: Seq<u8>)
    requires
        bs.len() > 0,
    ensures
        url_encode_spec(bs) == encode_byte(bs[0]) + url_encode_spec(bs.drop_first()),
    decreases bs.len(),
{
    if bs.len() > 1 {
        lemma_encode_front(bs.drop_last());
        assert(bs.drop_last().drop_first() =~= bs.drop_first().drop_last());
        assert(bs.drop_first().last() == bs.last());
        assert(bs.drop_last()[0] == bs[0]);
    } else {
        assert(bs.drop_last() =~= Seq::<u8>::empty());
        assert(bs.drop_first() =~= Seq::<u8>::empty());
    }
}

/// Form encoding loses nothing: decoding the encoding of any bytes gives them back.
pub proof fn law_url_encoding_round_trip(bs: Seq<u8>)
    ensures
        url_decode_spec(url_encode_spec(bs)) == bs,
    decreases bs.len(),
{
    if bs.len() > 0 {
        lemma_encode_front(bs);
        lemma_decode_byte(bs[0], url_encode_spec(bs.drop_first()));
        law_url_encoding_round_trip(bs.drop_first());
        assert(seq![bs[0]] + bs.drop_first() =~= bs);
    }
}

} // verus!
