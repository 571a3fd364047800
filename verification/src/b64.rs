//! Base64 (standard alphabet, `=`-padded) decoding of the two opaque
//! fields of a `get-entries` response.

use vstd::prelude::*;

verus! {

/// The value of one alphabet character, or -1 for anything else
/// (including `=`).
pub open spec fn b64_val(c: u8) -> int {
    if 65 <= c <= 90 {
        c - 65
    } else if 97 <= c <= 122 {
        c - 71
    } else if 48 <= c <= 57 {
        c + 4
    } else if c == 43 {
        62
    } else if c == 47 {
        63
    } else {
        -1
    }
}

/// The three bytes carried by a full quantum of four valid characters.
pub open spec fn b64_group(a: u8, b: u8, c: u8, d: u8) -> Seq<u8> {
    seq![
        (b64_val(a) * 4 + b64_val(b) / 16) as u8,
        ((b64_val(b) % 16) * 16 + b64_val(c) / 4) as u8,
        ((b64_val(c) % 4) * 64 + b64_val(d)) as u8,
    ]
}

/// The final quantum: two characters and `==` carry one byte, three
/// characters and `=` carry two, four characters carry three.
pub open spec fn b64_last(a: u8, b: u8, c: u8, d: u8) -> Option<Seq<u8>> {
    if b64_val(a) < 0 || b64_val(b) < 0 {
        None
    } else if c == 61 && d == 61 {
        Some(seq![(b64_val(a) * 4 + b64_val(b) / 16) as u8])
    } else if d == 61 {
        if b64_val(c) < 0 {
            None
        } else {
            Some(seq![
                (b64_val(a) * 4 + b64_val(b) / 16) as u8,
                ((b64_val(b) % 16) * 16 + b64_val(c) / 4) as u8,
            ])
        }
    } else if b64_val(c) >= 0 && b64_val(d) >= 0 {
        Some(b64_group(a, b, c, d))
    } else {
        None
    }
}

/// What decoding a base64 string yields: quanta of four characters, the
/// last one possibly padded; anything else is a decode failure.
pub open spec fn spec_b64_decode(s: Seq<u8>) -> Option<Seq<u8>>
    decreases s.len(),
{
    if s.len() == 0 {
        Some(Seq::empty())
    } else if s.len() < 4 {
        None
    } else if s.len() == 4 {
        b64_last(s[0], s[1], s[2], s[3])
    } else if b64_val(s[0]) >= 0 && b64_val(s[1]) >= 0 && b64_val(s[2]) >= 0 && b64_val(s[3]) >= 0 {
        match spec_b64_decode(s.skip(4)) {
            None => None,
            Some(t) => Some(b64_group(s[0], s[1], s[2], s[3]) + t),
        }
    } else {
        None
    }
}

proof fn lemma_b64_decode_len_mod(s: Seq<u8>)
    requires
        s.len() % 4 != 0,
    ensures
        spec_b64_decode(s) is None,
    decreases s.len(),
{
    if s.len() > 4 {
        assert(s.skip(4).len() % 4 != 0);
        lemma_b64_decode_len_mod(s.skip(4));
    }
}

/// The value of one character, `None` outside the alphabet.
fn b64v(c: u8) -> (r: Option<u8>)
    ensures
        (match r {
            Some(v) => b64_val(c) == v as int && v < 64,
            None => b64_val(c) < 0,
        }),
{
    if 65 <= c && c <= 90 {
        Some(c - 65)
    } else if 97 <= c && c <= 122 {
        Some(c - 71)
    } else if 48 <= c && c <= 57 {
        Some(c + 4)
    } else if c == 43 {
        Some(62)
    } else if c == 47 {
        Some(63)
    } else {
        None
    }
}

/// Decodes a base64 byte string; `None` exactly where `spec_b64_decode`
/// refuses it.
pub fn b64_decode(s: &Vec<u8>) -> (r: Option<Vec<u8>>)
    ensures
        (match r {
            Some(v) => Some(v@),
            None => None::<Seq<u8>>,
        }) == spec_b64_decode(s@),
{
    if s.len() == 0 {
        let empty: Vec<u8> = Vec::new();
        proof {
            assert(empty@ =~= Seq::<u8>::empty());
        }
        return Some(empty);
    }
    if s.len() % 4 != 0 {
        proof {
            lemma_b64_decode_len_mod(s@);
        }
        return None;
    }
    let mut out: Vec<u8> = Vec::new();
    let mut i: usize = 0;
    proof {
        assert(s.len() >= 4);
        assert(s@.skip(0) =~= s@);
        if spec_b64_decode(s@) is Some {
            assert(out@ + spec_b64_decode(s@)->Some_0 =~= spec_b64_decode(s@)->Some_0);
        }
    }
    while i + 4 < s.len()
        invariant
            s.len() % 4 == 0,
            s.len() >= 4,
            i % 4 == 0,
            i + 4 <= s.len(),
            spec_b64_decode(s@) == (match spec_b64_decode(s@.skip(i as int)) {
                None => None::<Seq<u8>>,
                Some(t) => Some(out@ + t),
            }),
        decreases s.len() - i,
    {
        let a = s[i];
        let b = s[i + 1];
        let c = s[i + 2];
        let d = s[i + 3];
        let va = b64v(a);
        let vb = b64v(b);
        let vc = b64v(c);
        let vd = b64v(d);
        proof {
            let rem = s@.skip(i as int);
            assert(s.len() - i >= 8) by {
                assert((s.len() - i) % 4 == 0);
                assert(s.len() - i > 4);
            }
            assert(rem.len() == s.len() - i);
            assert(rem[0] == s@[i as int] && rem[1] == s@[i + 1] && rem[2] == s@[i + 2]
                && rem[3] == s@[i + 3]);
            assert(rem.skip(4) =~= s@.skip(i + 4));
        }
        match (va, vb, vc, vd) {
            (Some(va), Some(vb), Some(vc), Some(vd)) => {
                let ghost out_pre = out@;
                out.push(va * 4 + vb / 16);
                out.push((vb % 16) * 16 + vc / 4);
                out.push((vc % 4) * 64 + vd);
                proof {
                    let rem = s@.skip(i as int);
                    assert(out@ =~= out_pre + b64_group(a, b, c, d));
                    assert(spec_b64_decode(rem) == (match spec_b64_decode(s@.skip(i + 4)) {
                        None => None::<Seq<u8>>,
                        Some(t) => Some(b64_group(a, b, c, d) + t),
                    }));
                    if spec_b64_decode(s@.skip(i + 4)) is Some {
                        let t = spec_b64_decode(s@.skip(i + 4))->Some_0;
                        assert(out_pre + (b64_group(a, b, c, d) + t)
                            =~= (out_pre + b64_group(a, b, c, d)) + t);
                    }
                }
            },
            _ => {
                return None;
            },
        }
        i = i + 4;
    }
    let a = s[i];
    let b = s[i + 1];
    let c = s[i + 2];
    let d = s[i + 3];
    proof {
        assert(i + 4 == s.len()) by {
            assert((s.len() - i) % 4 == 0);
        }
        let rem = s@.skip(i as int);
        assert(rem.len() == 4);
        assert(rem[0] == s@[i as int] && rem[1] == s@[i + 1] && rem[2] == s@[i + 2]
            && rem[3] == s@[i + 3]);
        assert(spec_b64_decode(rem) == b64_last(a, b, c, d));
    }
    let ghost out_pre = out@;
    let va = b64v(a);
    let vb = b64v(b);
    match (va, vb) {
        (Some(va), Some(vb)) => {
            if c == 61 && d == 61 {
                out.push(va * 4 + vb / 16);
                proof {
                    assert(out@ =~= out_pre + b64_last(a, b, c, d)->Some_0);
                }
                Some(out)
            } else if d == 61 {
                match b64v(c) {
                    Some(vc) => {
                        out.push(va * 4 + vb / 16);
                        out.push((vb % 16) * 16 + vc / 4);
                        proof {
                            assert(out@ =~= out_pre + b64_last(a, b, c, d)->Some_0);
                        }
                        Some(out)
                    },
                    None => None,
                }
            } else {
                match (b64v(c), b64v(d)) {
                    (Some(vc), Some(vd)) => {
                        out.push(va * 4 + vb / 16);
                        out.push((vb % 16) * 16 + vc / 4);
                        out.push((vc % 4) * 64 + vd);
                        proof {
                            assert(out@ =~= out_pre + b64_last(a, b, c, d)->Some_0);
                        }
                        Some(out)
                    },
                    _ => None,
                }
            }
        },
        _ => None,
    }
}

} // verus!
