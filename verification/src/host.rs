//! Validation of a user-supplied host name or IP address.
use vstd::prelude::*;
use vstd::string::StrSliceExecFns;
use vstd::utf8::{encode_scalar, encode_utf8};

use crate::text::{chars_of, is_space, is_space_char, trim, trim_bounds};

verus! {

/// A character that may not appear in a host: white space, or one that
/// would start a port, path, user or query part of a URL.
pub open spec fn forbidden_in_host(c: char) -> bool {
    is_space(c) || c == ':' || c == '/' || c == '\\' || c == '@' || c == '?' || c == '#' || c
        == '%'
}

/// The longest host accepted, in UTF-8 bytes.
pub const MAX_HOST_BYTES: usize = 253;

pub open spec fn empty_host_message() -> Seq<char> {
    "请输入电脑的 IP 地址"@
}

pub open spec fn long_host_message() -> Seq<char> {
    "主机地址过长"@
}

pub open spec fn malformed_host_message() -> Seq<char> {
    "主机地址格式不正确，请只填写 IP 地址或主机名（端口请在单独的输入框填写）"@
}

/// What a raw host input is accepted as: the input without surrounding
/// white space, when that is non-empty, at most 253 bytes long in UTF-8 and
/// free of forbidden characters; otherwise the message for the first check
/// that fails.
pub open spec fn host_verdict(raw: Seq<char>) -> Result<Seq<char>, Seq<char>> {
    let host = trim(raw);
    if host.len() == 0 {
        Err(empty_host_message())
    } else if encode_utf8(host).len() > MAX_HOST_BYTES {
        Err(long_host_message())
    } else if exists|i: int| 0 <= i < host.len() && forbidden_in_host(#[trigger] host[i]) {
        Err(malformed_host_message())
    } else {
        Ok(host)
    }
}

/// The number of bytes in the UTF-8 encoding of `c`.
fn utf8_width(c: char) -> (r: usize)
    ensures
        r == encode_scalar(c as u32).len(),
        1 <= r <= 4,
{
    let v = c as u32;
    if v <= 0x7f {
        1
    } else if v <= 0x7ff {
        2
    } else if v <= 0xffff && !(0xd800 <= v && v <= 0xdfff) {
        3
    } else {
        4
    }
}

fn forbidden_char(c: char) -> (r: bool)
    ensures
        r == forbidden_in_host(c),
{
    is_space_char(c) || c == ':' || c == '/' || c == '\\' || c == '@' || c == '?' || c == '#' || c
        == '%'
}

/// Validates a user-supplied host name or IP address: surrounding white
/// space is dropped, and only a bare host is accepted, so that a URL built
/// from it cannot gain a scheme, a port, a path or a user part.
pub fn sanitize_host(raw: &str) -> (r: Result<String, String>)
    ensures
        match r {
            Ok(h) => host_verdict(raw@) == Ok::<Seq<char>, Seq<char>>(h@),
            Err(e) => host_verdict(raw@) == Err::<Seq<char>, Seq<char>>(e@),
        },
{
    let chars = chars_of(raw);
    let (a, b) = trim_bounds(&chars);
    let host = raw.substring_char(a, b);
    assert(host@ == trim(raw@));
    if b == a {
        return Err("请输入电脑的 IP 地址".to_owned());
    }
    let mut bytes: usize = 0;
    let mut k = a;
    while k < b
        invariant
            a <= k <= b <= chars.len(),
            chars@ == raw@,
            host@ == chars@.subrange(a as int, b as int),
            host@ == trim(raw@),
            host@.len() > 0,
            bytes + encode_utf8(chars@.subrange(k as int, b as int)).len() == encode_utf8(
                host@,
            ).len(),
            bytes <= MAX_HOST_BYTES,
        decreases b - k,
    {
        let ghost rest = chars@.subrange(k as int, b as int);
        assert(rest.drop_first() =~= chars@.subrange(k + 1, b as int));
        assert(rest[0] == chars@[k as int]);
        assert(encode_utf8(rest) == encode_scalar(rest[0] as u32) + encode_utf8(rest.drop_first()));
        bytes = bytes + utf8_width(chars[k]);
        if bytes > MAX_HOST_BYTES {
            return Err("主机地址过长".to_owned());
        }
        k = k + 1;
    }
    assert(chars@.subrange(b as int, b as int) =~= Seq::<char>::empty());
    let mut i = a;
    while i < b
        invariant
            a <= i <= b <= chars.len(),
            chars@ == raw@,
            host@ == chars@.subrange(a as int, b as int),
            host@ == trim(raw@),
            host@.len() > 0,
            encode_utf8(host@).len() <= MAX_HOST_BYTES,
            forall|k: int| 0 <= k < i - a ==> !forbidden_in_host(#[trigger] host@[k]),
        decreases b - i,
    {
        if forbidden_char(chars[i]) {
            assert(forbidden_in_host(host@[i - a]));
            return Err("主机地址格式不正确，请只填写 IP 地址或主机名（端口请在单独的输入框填写）".to_owned());
        }
        i = i + 1;
    }
    Ok(host.to_owned())
}

} // verus!
