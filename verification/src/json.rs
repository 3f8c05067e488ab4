//! Byte-exact JSON rendering for the patches this controller submits.
//! Escaping follows the JSON rules for strings: `"` and `\` are escaped,
//! control bytes below 0x20 become `\b`, `\t`, `\n`, `\f`, `\r` or a
//! lowercase `\u00XX` escape; everything else passes through.
use vstd::prelude::*;

verus! {

/// Lowercase hexadecimal digit for `n < 16`.
pub open spec fn hex_digit(n: u8) -> u8 {
    if n < 10 {
        (0x30 + n) as u8
    } else {
        (0x57 + n) as u8
    }
}

/// How one byte appears inside a JSON string.
pub open spec fn json_escape_byte(b: u8) -> Seq<u8> {
    if b == 0x22 {
        seq![0x5c, 0x22]
    } else if b == 0x5c {
        seq![0x5c, 0x5c]
    } else if b == 0x08 {
        seq![0x5c, 0x62]
    } else if b == 0x09 {
        seq![0x5c, 0x74]
    } else if b == 0x0a {
        seq![0x5c, 0x6e]
    } else if b == 0x0c {
        seq![0x5c, 0x66]
    } else if b == 0x0d {
        seq![0x5c, 0x72]
    } else if b < 0x20 {
        seq![0x5c, 0x75, 0x30, 0x30, hex_digit(b / 16), hex_digit(b % 16)]
    } else {
        seq![b]
    }
}

/// The body of a JSON string: every byte escaped.
pub open spec fn json_escaped(s: Seq<u8>) -> Seq<u8>
    decreases s.len(),
{
    if s.len() == 0 {
        Seq::empty()
    } else {
        json_escape_byte(s[0]) + json_escaped(s.drop_first())
    }
}

/// A complete JSON string: quote, escaped body, quote.
pub open spec fn spec_json_string(s: Seq<u8>) -> Seq<u8> {
    seq![0x22u8] + json_escaped(s) + seq![0x22u8]
}

proof fn lemma_json_escaped_concat(a: Seq<u8>, b: Seq<u8>)
    ensures
        json_escaped(a + b) == json_escaped(a) + json_escaped(b),
    decreases a.len(),
{
    if a.len() == 0 {
        assert(a + b =~= b);
        assert(json_escaped(a) + json_escaped(b) =~= json_escaped(b));
    } else {
        assert((a + b).drop_first() =~= a.drop_first() + b);
        lemma_json_escaped_concat(a.drop_first(), b);
        assert((a + b)[0] == a[0]);
        assert(json_escape_byte(a[0]) + (json_escaped(a.drop_first()) + json_escaped(b))
            =~= json_escaped(a) + json_escaped(b));
    }
}

/// Append the escaped body of `s` to `out`.
fn json_escape_into(out: &mut Vec<u8>, s: &[u8])
    ensures
        final(out)@ == old(out)@ + json_escaped(s@),
{
    let mut i: usize = 0;
    proof {
        assert(old(out)@ + json_escaped(s@.subrange(0, 0)) =~= old(out)@);
    }
    while i < s.len()
        invariant
            0 <= i <= s@.len(),
            out@ == old(out)@ + json_escaped(s@.subrange(0, i as int)),
        decreases s@.len() - i,
    {
        let b = s[i];
        if b == 0x22 {
            out.push(0x5c);
            out.push(0x22);
        } else if b == 0x5c {
            out.push(0x5c);
            out.push(0x5c);
        } else if b == 0x08 {
            out.push(0x5c);
            out.push(0x62);
        } else if b == 0x09 {
            out.push(0x5c);
            out.push(0x74);
        } else if b == 0x0a {
            out.push(0x5c);
            out.push(0x6e);
        } else if b == 0x0c {
            out.push(0x5c);
            out.push(0x66);
        } else if b == 0x0d {
            out.push(0x5c);
            out.push(0x72);
        } else if b < 0x20 {
            out.push(0x5c);
            out.push(0x75);
            out.push(0x30);
            out.push(0x30);
            let hi = b / 16;
            let lo = b % 16;
            out.push(if hi < 10 {
                0x30 + hi
            } else {
                0x57 + hi
            });
            out.push(if lo < 10 {
                0x30 + lo
            } else {
                0x57 + lo
            });
        } else {
            out.push(b);
        }
        proof {
            assert(s@.subrange(0, i + 1 as int) =~= s@.subrange(0, i as int) + seq![s@[i as int]]);
            lemma_json_escaped_concat(s@.subrange(0, i as int), seq![s@[i as int]]);
            assert(seq![s@[i as int]].drop_first() =~= Seq::<u8>::empty());
            assert(json_escaped(Seq::<u8>::empty()) == Seq::<u8>::empty());
            assert(json_escaped(seq![s@[i as int]]) =~= json_escape_byte(s@[i as int]));
            assert(out@ =~= old(out)@ + json_escaped(s@.subrange(0, i + 1 as int)));
        }
        i = i + 1;
    }
    proof {
        assert(s@.subrange(0, s@.len() as int) =~= s@);
    }
}

/// Append the JSON string for `s` (quotes included) to `out`.
pub fn json_string_into(out: &mut Vec<u8>, s: &[u8])
    ensures
        final(out)@ == old(out)@ + spec_json_string(s@),
{
    out.push(0x22);
    json_escape_into(out, s);
    out.push(0x22);
    proof {
        assert(out@ =~= old(out)@ + spec_json_string(s@));
    }
}

/// Key/value pair rendering: `"key":"value"`.
pub open spec fn spec_json_pair(k: Seq<u8>, v: Seq<u8>) -> Seq<u8> {
    spec_json_string(k) + seq![0x3au8] + spec_json_string(v)
}

/// Members after the first, each preceded by a comma.
pub open spec fn spec_json_tail_members(kvs: Seq<(Seq<u8>, Seq<u8>)>) -> Seq<u8>
    decreases kvs.len(),
{
    if kvs.len() == 0 {
        Seq::empty()
    } else {
        seq![0x2cu8] + spec_json_pair(kvs[0].0, kvs[0].1) + spec_json_tail_members(
            kvs.drop_first(),
        )
    }
}

/// The members of a JSON object, comma separated.
pub open spec fn spec_json_members(kvs: Seq<(Seq<u8>, Seq<u8>)>) -> Seq<u8> {
    if kvs.len() == 0 {
        Seq::empty()
    } else {
        spec_json_pair(kvs[0].0, kvs[0].1) + spec_json_tail_members(kvs.drop_first())
    }
}

/// A JSON object of string keys and string values, in the order given.
pub open spec fn spec_json_object(kvs: Seq<(Seq<u8>, Seq<u8>)>) -> Seq<u8> {
    seq![0x7bu8] + spec_json_members(kvs) + seq![0x7du8]
}

proof fn lemma_tail_members_concat(a: Seq<(Seq<u8>, Seq<u8>)>, b: Seq<(Seq<u8>, Seq<u8>)>)
    ensures
        spec_json_tail_members(a + b) == spec_json_tail_members(a) + spec_json_tail_members(b),
    decreases a.len(),
{
    if a.len() == 0 {
        assert(a + b =~= b);
        assert(spec_json_tail_members(a) + spec_json_tail_members(b) =~= spec_json_tail_members(
            b,
        ));
    } else {
        assert((a + b).drop_first() =~= a.drop_first() + b);
        lemma_tail_members_concat(a.drop_first(), b);
        assert((a + b)[0] == a[0]);
        assert(seq![0x2cu8] + spec_json_pair(a[0].0, a[0].1) + (spec_json_tail_members(
            a.drop_first(),
        ) + spec_json_tail_members(b)) =~= spec_json_tail_members(a) + spec_json_tail_members(b));
    }
}

/// Appending one member to a non-empty member list appends `,` and the pair.
proof fn lemma_members_push(kvs: Seq<(Seq<u8>, Seq<u8>)>, k: Seq<u8>, v: Seq<u8>)
    ensures
        kvs.len() == 0 ==> spec_json_members(kvs.push((k, v))) == spec_json_pair(k, v),
        kvs.len() > 0 ==> spec_json_members(kvs.push((k, v))) == spec_json_members(kvs) + seq![
            0x2cu8,
        ] + spec_json_pair(k, v),
{
    let single = seq![(k, v)];
    assert(kvs.push((k, v)) =~= kvs + single);
    if kvs.len() == 0 {
        assert(kvs + single =~= single);
        assert(single.drop_first() =~= Seq::<(Seq<u8>, Seq<u8>)>::empty());
        assert(spec_json_members(single) =~= spec_json_pair(k, v));
    } else {
        assert((kvs + single).drop_first() =~= kvs.drop_first() + single);
        lemma_tail_members_concat(kvs.drop_first(), single);
        assert(single.drop_first() =~= Seq::<(Seq<u8>, Seq<u8>)>::empty());
        assert(single[0] == (k, v));
        assert(spec_json_tail_members(Seq::<(Seq<u8>, Seq<u8>)>::empty()) == Seq::<u8>::empty());
        assert(spec_json_tail_members(single) =~= seq![0x2cu8] + spec_json_pair(k, v));
        assert((kvs + single)[0] == kvs[0]);
        assert(spec_json_members(kvs + single) =~= spec_json_members(kvs) + seq![0x2cu8]
            + spec_json_pair(k, v));
    }
}

/// Append the JSON object holding the map's annotations, keys in their
/// sorted order, to `out`.
pub fn json_annotations_object_into(out: &mut Vec<u8>, anns: &crate::annmap::AnnotationMap)
    ensures
        final(out)@ == old(out)@ + spec_json_object(anns.kvs()),
{
    out.push(0x7b);
    let n = anns.len();
    let mut i: usize = 0;
    proof {
        assert(anns.kvs().subrange(0, 0) =~= Seq::<(Seq<u8>, Seq<u8>)>::empty());
        assert(out@ =~= old(out)@ + seq![0x7bu8] + spec_json_members(anns.kvs().subrange(0, 0)));
    }
    while i < n
        invariant
            0 <= i <= n,
            n == anns.kvs().len(),
            out@ == old(out)@ + seq![0x7bu8] + spec_json_members(anns.kvs().subrange(0, i as int)),
        decreases n - i,
    {
        if i > 0 {
            out.push(0x2c);
        }
        let entry = anns.entry_at(i);
        json_string_into(out, &entry.0);
        out.push(0x3a);
        json_string_into(out, &entry.1);
        proof {
            let ghost pre = anns.kvs().subrange(0, i as int);
            let ghost kv = anns.kvs()[i as int];
            assert(anns.kvs().subrange(0, i + 1 as int) =~= pre.push((kv.0, kv.1)));
            lemma_members_push(pre, kv.0, kv.1);
            assert(out@ =~= old(out)@ + seq![0x7bu8] + spec_json_members(
                anns.kvs().subrange(0, i + 1 as int),
            ));
        }
        i = i + 1;
    }
    out.push(0x7d);
    proof {
        assert(anns.kvs().subrange(0, n as int) =~= anns.kvs());
        assert(out@ =~= old(out)@ + spec_json_object(anns.kvs()));
    }
}

} // verus!
