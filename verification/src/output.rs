//! Where a rendered PNG goes: into a file the client named, or back to the
//! client inline as base64-encoded image content.
use base64::Engine;
use vstd::prelude::*;

verus! {

/// The character of the standard base64 alphabet (RFC 4648) for the six-bit value `v`.
pub open spec fn base64_digit(v: int) -> char {
    if v < 26 {
        (65 + v) as char
    } else if v < 52 {
        (97 + v - 26) as char
    } else if v < 62 {
        (48 + v - 52) as char
    } else if v == 62 {
        '+'
    } else {
        '/'
    }
}

/// The base64 text of `data` in the standard alphabet (RFC 4648), padded with `=`:
/// every three bytes become four characters, six bits each, and a last group of one
/// or two bytes becomes two or three characters followed by `==` or `=`.
pub open spec fn base64_standard(data: Seq<u8>) -> Seq<char>
    decreases data.len(),
{
    if data.len() == 0 {
        seq![]
    } else if data.len() == 1 {
        let b0 = data[0] as int;
        seq![base64_digit(b0 / 4), base64_digit((b0 % 4) * 16), '=', '=']
    } else if data.len() == 2 {
        let b0 = data[0] as int;
        let b1 = data[1] as int;
        seq![
            base64_digit(b0 / 4),
            base64_digit((b0 % 4) * 16 + b1 / 16),
            base64_digit((b1 % 16) * 4),
            '=',
        ]
    } else {
        let b0 = data[0] as int;
        let b1 = data[1] as int;
        let b2 = data[2] as int;
        seq![
            base64_digit(b0 / 4),
            base64_digit((b0 % 4) * 16 + b1 / 16),
            base64_digit((b1 % 16) * 4 + b2 / 64),
            base64_digit(b2 % 64),
        ] + base64_standard(data.subrange(3, data.len() as int))
    }
}

/// The length of the padded base64 text of `n` bytes.
pub open spec fn base64_len(n: int) -> int {
    4 * ((n + 2) / 3)
}

/// Calls `base64::Engine::encode` on `base64::engine::general_purpose::STANDARD`.
/// Claimed: the text is `base64_standard` of the bytes. The crate panics when the
/// length of the text (its `encoded_len` with padding) does not fit in `usize`,
/// hence the `requires`.
#[verifier::external_body]
fn base64_encode_standard(data: &[u8]) -> (text: String)
    requires
        base64_len(data@.len() as int) <= usize::MAX,
    ensures
        text@ == base64_standard(data@),
{
    base64::engine::general_purpose::STANDARD.encode(data)
}

/// The MIME type of the inline image content.
pub open spec fn png_mime_type() -> Seq<char> {
    "image/png"@
}

/// What `render` does with the PNG it made.
pub enum RenderDelivery {
    /// Write `png` to the file at `path`.
    SaveToFile { path: String, png: Vec<u8> },
    /// Hand the image back to the client: `data` is the base64 text of the PNG.
    InlineImage { data: String, mime_type: String },
}

/// Decides where a rendered PNG goes: to `output_path` when one is given,
/// otherwise back to the client as base64 image content of type `image/png`.
pub fn deliver_png(png: Vec<u8>, output_path: Option<String>) -> (delivery: RenderDelivery)
    requires
        output_path is None ==> base64_len(png@.len() as int) <= usize::MAX,
    ensures
        match output_path {
            Some(p) => delivery matches RenderDelivery::SaveToFile { path, png: bytes } && path
                == p && bytes@ == png@,
            None => delivery matches RenderDelivery::InlineImage { data, mime_type } && data@
                == base64_standard(png@) && mime_type@ == png_mime_type() && mime_type@
                == "image/png"@,
        },
{
    match output_path {
        Some(path) => RenderDelivery::SaveToFile { path, png },
        None => {
            let data = base64_encode_standard(png.as_slice());
            RenderDelivery::InlineImage { data, mime_type: String::from_str("image/png") }
        },
    }
}

/// Law: the base64 text of `n` bytes is `4 * ceil(n / 3)` characters long.
pub proof fn lemma_base64_standard_len(data: Seq<u8>)
    ensures
        base64_standard(data).len() == base64_len(data.len() as int),
    decreases data.len(),
{
    if data.len() >= 3 {
        lemma_base64_standard_len(data.subrange(3, data.len() as int));
    }
}

/// Law: every three bytes become four characters of their own: the text of bytes
/// `a` followed by `b` is the text of `a` followed by that of `b` when `a` is a
/// whole number of three-byte groups.
pub proof fn law_base64_groups_concatenate(a: Seq<u8>, b: Seq<u8>)
    requires
        a.len() % 3 == 0,
    ensures
        base64_standard(a + b) == base64_standard(a) + base64_standard(b),
    decreases a.len(),
{
    if a.len() == 0 {
        assert(a + b =~= b);
        assert(base64_standard(a) =~= Seq::<char>::empty());
        assert(base64_standard(a) + base64_standard(b) =~= base64_standard(b));
    } else {
        let rest = a.subrange(3, a.len() as int);
        law_base64_groups_concatenate(rest, b);
        assert((a + b).subrange(3, (a + b).len() as int) =~= rest + b);
        assert((a + b)[0] == a[0] && (a + b)[1] == a[1] && (a + b)[2] == a[2]);
        let head = seq![
            base64_digit(a[0] as int / 4),
            base64_digit((a[0] as int % 4) * 16 + a[1] as int / 16),
            base64_digit((a[1] as int % 16) * 4 + a[2] as int / 64),
            base64_digit(a[2] as int % 64),
        ];
        assert(base64_standard(a + b) == head + base64_standard(rest + b));
        assert(base64_standard(a) == head + base64_standard(rest));
        assert(head + (base64_standard(rest) + base64_standard(b)) =~= (head + base64_standard(rest))
            + base64_standard(b));
    }
}

/// Law: the six-bit values 0..63 are written `A`-`Z`, `a`-`z`, `0`-`9`, `+`, `/`.
pub proof fn law_base64_alphabet(v: int)
    requires
        0 <= v < 64,
    ensures
        0 <= v < 26 ==> base64_digit(v) as int == 'A' as int + v,
        26 <= v < 52 ==> base64_digit(v) as int == 'a' as int + (v - 26),
        52 <= v < 62 ==> base64_digit(v) as int == '0' as int + (v - 52),
        v == 62 ==> base64_digit(v) == '+',
        v == 63 ==> base64_digit(v) == '/',
{
}

} // verus!
