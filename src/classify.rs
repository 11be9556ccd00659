use vstd::prelude::*;

verus! {

/// How many bytes the probe reads from the start of a file.
pub const PROBE_LIMIT: usize = 1024;

/// How many bytes of the probe are decoded and scored.
pub const SAMPLE_LIMIT: usize = 512;

/// A UTF-8 continuation byte.
pub open spec fn continuation(b: u8) -> bool {
    0x80 <= b && b <= 0xbf
}

/// The second byte of a three-byte sequence led by `lead`: no overlong
/// form and no surrogate.
pub open spec fn second_of_three(lead: u8, b: u8) -> bool {
    if lead == 0xe0 {
        0xa0 <= b && b <= 0xbf
    } else if lead == 0xed {
        0x80 <= b && b <= 0x9f
    } else {
        continuation(b)
    }
}

/// The second byte of a four-byte sequence led by `lead`: no overlong
/// form and nothing past U+10FFFF.
pub open spec fn second_of_four(lead: u8, b: u8) -> bool {
    if lead == 0xf0 {
        0x90 <= b && b <= 0xbf
    } else if lead == 0xf4 {
        0x80 <= b && b <= 0x8f
    } else {
        continuation(b)
    }
}

/// Whether `b` is well-formed UTF-8 (the Unicode table of well-formed
/// byte sequences).
pub open spec fn utf8_valid(b: Seq<u8>) -> bool
    decreases b.len(),
{
    if b.len() == 0 {
        true
    } else if b[0] <= 0x7f {
        utf8_valid(b.skip(1))
    } else if 0xc2 <= b[0] && b[0] <= 0xdf {
        b.len() >= 2 && continuation(b[1]) && utf8_valid(b.skip(2))
    } else if 0xe0 <= b[0] && b[0] <= 0xef {
        b.len() >= 3 && second_of_three(b[0], b[1]) && continuation(b[2]) && utf8_valid(b.skip(3))
    } else if 0xf0 <= b[0] && b[0] <= 0xf4 {
        b.len() >= 4 && second_of_four(b[0], b[1]) && continuation(b[2]) && continuation(b[3])
            && utf8_valid(b.skip(4))
    } else {
        false
    }
}

proof fn lemma_ascii_is_utf8(b: Seq<u8>)
    requires
        forall|i: int| 0 <= i < b.len() ==> b[i] < 0x80,
    ensures
        utf8_valid(b),
    decreases b.len(),
{
    if b.len() > 0 {
        lemma_ascii_is_utf8(b.skip(1));
    }
}

/// Relies on std::str::from_utf8: it succeeds exactly on well-formed UTF-8.
#[verifier::external_body]
fn is_utf8(b: &[u8]) -> (r: bool)
    ensures
        r == utf8_valid(b@),
{
    std::str::from_utf8(b).is_ok()
}

/// Why a file could not be classified.
#[derive(Clone, Copy, Debug, PartialEq, Eq, Structural)]
pub enum ClassifyError {
    /// The sample is not valid UTF-8.
    NonUtf8Sample,
}

/// An ASCII graphic character or ASCII whitespace (space, tab, line feed,
/// form feed, carriage return).
pub open spec fn printable(b: u8) -> bool {
    (0x21 <= b && b <= 0x7e) || b == 0x20 || b == 0x09 || b == 0x0a || b == 0x0c || b == 0x0d
}

/// How many bytes of `s` are printable.
pub open spec fn printable_count(s: Seq<u8>) -> nat
    decreases s.len(),
{
    if s.len() == 0 {
        0
    } else {
        printable_count(s.drop_last()) + if printable(s.last()) { 1nat } else { 0nat }
    }
}

/// Whether `b` starts a character: it is no UTF-8 continuation byte.
pub open spec fn starts_char(b: u8) -> bool {
    !(0x80 <= b && b <= 0xbf)
}

/// How many characters valid UTF-8 bytes `s` encode: one per byte that is
/// no continuation byte.
pub open spec fn char_count(s: Seq<u8>) -> nat
    decreases s.len(),
{
    if s.len() == 0 {
        0
    } else {
        char_count(s.drop_last()) + if starts_char(s.last()) { 1nat } else { 0nat }
    }
}

/// The bytes that the probe looks at: at most `PROBE_LIMIT` of `head`.
pub open spec fn probe_of(head: Seq<u8>) -> Seq<u8> {
    if head.len() <= PROBE_LIMIT { head } else { head.take(PROBE_LIMIT as int) }
}

/// The scored sample: at most `SAMPLE_LIMIT` bytes of the probe.
pub open spec fn sample_of(head: Seq<u8>) -> Seq<u8> {
    let p = probe_of(head);
    if p.len() <= SAMPLE_LIMIT { p } else { p.take(SAMPLE_LIMIT as int) }
}

/// More than 85% of the sample's characters are printable.
pub open spec fn mostly_printable(s: Seq<u8>) -> bool {
    20 * printable_count(s) > 17 * char_count(s)
}

/// The verdict on a file of `size` bytes whose first bytes are `head`.
pub open spec fn verdict(size: u64, head: Seq<u8>) -> Result<bool, ClassifyError> {
    let p = probe_of(head);
    if size == 0 || p.len() == 0 || p.contains(0u8) {
        Ok(false)
    } else if !utf8_valid(sample_of(head)) {
        Err(ClassifyError::NonUtf8Sample)
    } else {
        Ok(mostly_printable(sample_of(head)))
    }
}

/// Decides whether a file of `size` bytes, whose first bytes as read are
/// `head`, is text worth including. A file is text when it is non-empty,
/// its first `PROBE_LIMIT` bytes hold no null byte, and more than 85% of
/// the characters of the first `SAMPLE_LIMIT` of them are ASCII printable
/// or whitespace; a sample that is not UTF-8 is an error.
pub fn is_readable_text(size: u64, head: &[u8]) -> (r: Result<bool, ClassifyError>)
    ensures
        r == verdict(size, head@),
        probe_of(head@).contains(0u8) ==> r == Ok::<bool, ClassifyError>(false),
        size > 0 && probe_of(head@).len() > 0 && !probe_of(head@).contains(0u8)
            && (forall|i: int| 0 <= i < sample_of(head@).len() ==> sample_of(head@)[i] < 0x80)
            ==> r == Ok::<bool, ClassifyError>(mostly_printable(sample_of(head@))),
{
    let plen: usize = if head.len() <= PROBE_LIMIT { head.len() } else { PROBE_LIMIT };
    let ghost p = probe_of(head@);
    let mut i: usize = 0;
    let mut has_null = false;
    while i < plen
        invariant
            plen == p.len(),
            p =~= head@.take(plen as int),
            plen <= head@.len(),
            i <= plen,
            has_null == p.take(i as int).contains(0u8),
        decreases plen - i,
    {
        proof {
            assert(p.take(i + 1) =~= p.take(i as int).push(p[i as int]));
        }
        if head[i] == 0 {
            has_null = true;
        }
        proof {
            let q = p.take(i as int);
            let q2 = p.take(i + 1);
            if has_null {
                if q.contains(0u8) {
                    let k = choose|k: int| 0 <= k < q.len() && q[k] == 0u8;
                    assert(q2[k] == 0u8);
                } else {
                    assert(q2[i as int] == 0u8);
                }
            } else {
                assert forall|k: int| 0 <= k < q2.len() implies q2[k] != 0u8 by {
                    if k < i {
                        assert(q2[k] == q[k]);
                    }
                }
            }
        }
        i = i + 1;
    }
    proof {
        assert(p.take(plen as int) =~= p);
    }
    if size == 0 || plen == 0 || has_null {
        return Ok(false);
    }
    let slen: usize = if plen <= SAMPLE_LIMIT { plen } else { SAMPLE_LIMIT };
    let mut sample: Vec<u8> = Vec::new();
    let mut count: usize = 0;
    let mut chars: usize = 0;
    let mut j: usize = 0;
    while j < slen
        invariant
            slen <= plen,
            plen <= head@.len(),
            slen == sample_of(head@).len(),
            sample_of(head@) =~= head@.take(slen as int),
            j <= slen,
            sample@ =~= head@.take(j as int),
            count == printable_count(sample@),
            count <= j,
            chars == char_count(sample@),
            chars <= j,
        decreases slen - j,
    {
        let b = head[j];
        proof {
            assert(sample@.push(b).drop_last() =~= sample@);
        }
        sample.push(b);
        if (0x21 <= b && b <= 0x7e) || b == 0x20 || b == 0x09 || b == 0x0a || b == 0x0c || b == 0x0d {
            count = count + 1;
        }
        if !(0x80 <= b && b <= 0xbf) {
            chars = chars + 1;
        }
        j = j + 1;
    }
    proof {
        if forall|k: int| 0 <= k < sample@.len() ==> sample@[k] < 0x80 {
            lemma_ascii_is_utf8(sample@);
        }
    }
    if !is_utf8(sample.as_slice()) {
        return Err(ClassifyError::NonUtf8Sample);
    }
    Ok(20 * count > 17 * chars)
}

} // verus!
