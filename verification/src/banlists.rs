//! The ban-list normalizer: strips comment lines from the raw ban-list text,
//! then parses id-keyed restriction records, one `id,limit` pair per line.

use vstd::prelude::*;

verus! {

/// The error of a malformed ban-list payload; malformed input is fatal for
/// the operation, no partial recovery.
#[derive(PartialEq, Eq, Structural, Clone, Copy, Debug)]
pub enum BanlistError {
    Malformed,
}

/// Index of the first occurrence of `b`, or the length when absent.
pub open spec fn find_byte(s: Seq<u8>, b: u8) -> nat
    decreases s.len(),
{
    if s.len() == 0 {
        0
    } else if s[0] == b {
        0
    } else {
        1 + find_byte(s.drop_first(), b)
    }
}

/// The text with every region from a `#` through the following newline
/// removed; a trailing comment without a newline is kept as it stands.
pub open spec fn strip_comments_spec(s: Seq<u8>) -> Seq<u8>
    decreases s.len(),
{
    if s.len() == 0 {
        Seq::empty()
    } else if s[0] == 35 {
        let nl = find_byte(s, 10);
        if nl < s.len() {
            strip_comments_spec(s.skip(nl as int + 1))
        } else {
            s
        }
    } else {
        seq![s[0]] + strip_comments_spec(s.drop_first())
    }
}

/// Whether every byte is a decimal digit.
pub open spec fn all_digits(s: Seq<u8>) -> bool {
    forall|p: int| 0 <= p < s.len() ==> 48 <= #[trigger] s[p] <= 57
}

/// The value of a run of decimal digits, most significant first.
pub open spec fn digits_val(s: Seq<u8>) -> int
    decreases s.len(),
{
    if s.len() == 0 {
        0
    } else {
        digits_val(s.drop_last()) * 10 + (s.last() - 48)
    }
}

pub open spec fn pow10(n: nat) -> int
    decreases n,
{
    if n == 0 {
        1
    } else {
        10 * pow10((n - 1) as nat)
    }
}

/// One restriction record: an id of one to nine digits, a comma, and a
/// single-digit limit.
pub open spec fn parse_line(line: Seq<u8>) -> Option<(u32, u8)> {
    let c = find_byte(line, 44);
    if c < line.len() {
        let idp = line.take(c as int);
        let lim = line.skip(c as int + 1);
        if 1 <= idp.len() <= 9 && all_digits(idp) && lim.len() == 1 && all_digits(lim) {
            Some((digits_val(idp) as u32, (lim[0] - 48) as u8))
        } else {
            None
        }
    } else {
        None
    }
}

/// The records of the whole text, line by line; blank lines are skipped and
/// any malformed line is fatal.
pub open spec fn parse_banlist_spec(s: Seq<u8>) -> Option<Seq<(u32, u8)>>
    decreases s.len(),
{
    if s.len() == 0 {
        Some(Seq::empty())
    } else {
        let nl = find_byte(s, 10);
        let line = s.take(if nl < s.len() {
            nl as int
        } else {
            s.len() as int
        });
        let rest = if nl < s.len() {
            s.skip(nl as int + 1)
        } else {
            Seq::empty()
        };
        if line.len() == 0 {
            parse_banlist_spec(rest)
        } else {
            match parse_line(line) {
                Some(e) => match parse_banlist_spec(rest) {
                    Some(v) => Some(seq![e] + v),
                    None => None,
                },
                None => None,
            }
        }
    }
}

proof fn lemma_find_byte_at(s: Seq<u8>, b: u8, k: int)
    requires
        0 <= k < s.len(),
        s[k] == b,
        forall|p: int| 0 <= p < k ==> s[p] != b,
    ensures
        find_byte(s, b) == k,
    decreases k,
{
    if k > 0 {
        lemma_find_byte_at(s.drop_first(), b, k - 1);
    }
}

proof fn lemma_find_byte_absent(s: Seq<u8>, b: u8)
    requires
        forall|p: int| 0 <= p < s.len() ==> s[p] != b,
    ensures
        find_byte(s, b) == s.len(),
    decreases s.len(),
{
    if s.len() > 0 {
        lemma_find_byte_absent(s.drop_first(), b);
    }
}

proof fn lemma_digits_bound(s: Seq<u8>)
    requires
        all_digits(s),
    ensures
        0 <= digits_val(s) < pow10(s.len()),
    decreases s.len(),
{
    if s.len() > 0 {
        assert(all_digits(s.drop_last()));
        lemma_digits_bound(s.drop_last());
        assert(s.last() == s[s.len() - 1]);
    }
}

proof fn lemma_digits_snoc(s: Seq<u8>, k: int)
    requires
        0 <= k < s.len(),
    ensures
        digits_val(s.take(k + 1)) == digits_val(s.take(k)) * 10 + (s[k] - 48),
    decreases s.len(),
{
    assert(s.take(k + 1).drop_last() =~= s.take(k));
    assert(s.take(k + 1).last() == s[k]);
}

/// Removes every comment region — a `#` through the following newline —
/// from the raw ban-list text.
pub fn strip_comments(src: &Vec<u8>) -> (r: Vec<u8>)
    ensures
        r@ == strip_comments_spec(src@),
{
    let mut out: Vec<u8> = Vec::new();
    let mut i: usize = 0;
    proof {
        assert(src@.skip(0) =~= src@);
        assert(out@ + strip_comments_spec(src@) =~= strip_comments_spec(src@));
    }
    while i < src.len()
        invariant
            i <= src@.len(),
            strip_comments_spec(src@) == out@ + strip_comments_spec(src@.skip(i as int)),
        decreases src@.len() - i,
    {
        if src[i] == 35 {
            let mut j: usize = i;
            while j < src.len() && src[j] != 10
                invariant
                    i <= j <= src@.len(),
                    forall|p: int| i <= p < j ==> src@[p] != 10,
                decreases src@.len() - j,
            {
                j += 1;
            }
            let ghost tail = src@.skip(i as int);
            if j < src.len() {
                proof {
                    assert(tail[j - i] == src@[j as int]);
                    assert forall|p: int| 0 <= p < j - i implies tail[p] != 10 by {
                        assert(tail[p] == src@[i + p]);
                    }
                    lemma_find_byte_at(tail, 10, j - i);
                    assert(tail.skip((j - i) as int + 1) =~= src@.skip(j as int + 1));
                }
                i = j + 1;
            } else {
                proof {
                    assert forall|p: int| 0 <= p < tail.len() implies tail[p] != 10 by {
                        assert(tail[p] == src@[i + p]);
                    }
                    lemma_find_byte_absent(tail, 10);
                    assert(strip_comments_spec(tail) == tail);
                }
                let mut k: usize = i;
                while k < src.len()
                    invariant
                        i <= k <= src@.len(),
                        strip_comments_spec(src@) == out@ + src@.skip(k as int),
                    decreases src@.len() - k,
                {
                    let b = src[k];
                    out.push(b);
                    proof {
                        assert(src@.skip(k as int) =~= seq![src@[k as int]] + src@.skip(
                            k as int + 1,
                        ));
                        assert((out@.drop_last() + (seq![src@[k as int]] + src@.skip(k as int + 1)))
                            =~= out@ + src@.skip(k as int + 1));
                    }
                    k += 1;
                }
                proof {
                    assert(src@.skip(src@.len() as int) =~= Seq::<u8>::empty());
                    assert(out@ + Seq::<u8>::empty() =~= out@);
                }
                return out;
            }
        } else {
            let b = src[i];
            out.push(b);
            proof {
                let ghost tail = src@.skip(i as int);
                assert(tail[0] == src@[i as int]);
                assert(tail.drop_first() =~= src@.skip(i as int + 1));
                assert(out@.drop_last() + (seq![src@[i as int]] + strip_comments_spec(
                    src@.skip(i as int + 1),
                )) =~= out@ + strip_comments_spec(src@.skip(i as int + 1)));
            }
            i += 1;
        }
    }
    proof {
        assert(src@.skip(src@.len() as int) =~= Seq::<u8>::empty());
        assert(out@ + Seq::<u8>::empty() =~= out@);
    }
    out
}

/// Parses one restriction record out of `line`.
fn parse_line_exec(src: &Vec<u8>, start: usize, end: usize) -> (r: Option<(u32, u8)>)
    requires
        start <= end <= src@.len(),
    ensures
        r == parse_line(src@.subrange(start as int, end as int)),
{
    let ghost line = src@.subrange(start as int, end as int);
    let mut c: usize = start;
    while c < end && src[c] != 44
        invariant
            start <= c <= end <= src@.len(),
            forall|p: int| start <= p < c ==> src@[p] != 44,
        decreases end - c,
    {
        c += 1;
    }
    if c >= end {
        proof {
            assert forall|p: int| 0 <= p < line.len() implies line[p] != 44 by {
                assert(line[p] == src@[start + p]);
            }
            lemma_find_byte_absent(line, 44);
        }
        return None;
    }
    proof {
        assert(line[c - start] == src@[c as int]);
        assert forall|p: int| 0 <= p < c - start implies line[p] != 44 by {
            assert(line[p] == src@[start + p]);
        }
        lemma_find_byte_at(line, 44, c - start);
    }
    let ghost idp = line.take((c - start) as int);
    let ghost lim = line.skip((c - start) as int + 1);
    let idlen = c - start;
    if idlen < 1 || idlen > 9 || end - c != 2 {
        proof {
            assert(idp.len() == c - start);
            assert(lim.len() == end - c - 1);
            assert(!(1 <= idp.len() <= 9 && all_digits(idp) && lim.len() == 1 && all_digits(
                lim,
            )));
            assert(parse_line(line) is None);
        }
        return None;
    }
    let limb = src[c + 1];
    proof {
        assert(lim.len() == 1);
        assert(lim[0] == src@[c as int + 1]);
    }
    if limb < 48 || limb > 57 {
        return None;
    }
    let mut k: usize = start;
    let mut acc: u64 = 0;
    proof {
        assert(idp.take(0) =~= Seq::<u8>::empty());
        lemma_digits_bound(idp.take(0));
    }
    while k < c
        invariant
            start <= k <= c <= src@.len(),
            1 <= c - start <= 9,
            idp == line.take((c - start) as int),
            line == src@.subrange(start as int, end as int),
            start <= c < end <= src@.len(),
            end - c == 2,
            find_byte(line, 44) == (c - start) as nat,
            limb == src@[c as int + 1],
            48 <= limb <= 57,
            forall|p: int| 0 <= p < k - start ==> 48 <= #[trigger] idp[p] <= 57,
            acc == digits_val(idp.take((k - start) as int)),
            0 <= acc < pow10((k - start) as nat),
        decreases c - k,
    {
        let b = src[k];
        proof {
            assert(idp[k - start] == src@[k as int]);
        }
        if b < 48 || b > 57 {
            proof {
                assert(!(48 <= idp[k - start] <= 57));
                assert(!all_digits(idp));
                assert(parse_line(line) is None);
            }
            return None;
        }
        proof {
            lemma_digits_snoc(idp, k - start);
            assert(idp.take((k - start) as int + 1) == idp.take(((k + 1) - start) as int));
            reveal_with_fuel(pow10, 11);
            assert(pow10(((k + 1) - start) as nat) == 10 * pow10((k - start) as nat));
            assert(acc * 10 + (b - 48) < pow10(((k + 1) - start) as nat));
            assert(pow10(9) == 1000000000);
            assert(pow10((k - start) as nat) <= pow10(9)) by {
                assert(pow10(0) == 1 && pow10(1) == 10 && pow10(2) == 100 && pow10(3) == 1000
                    && pow10(4) == 10000 && pow10(5) == 100000 && pow10(6) == 1000000 && pow10(7)
                    == 10000000 && pow10(8) == 100000000);
            }
        }
        acc = acc * 10 + (b - 48) as u64;
        k += 1;
    }
    proof {
        assert(idp.take((c - start) as int) =~= idp);
        assert(all_digits(idp));
        lemma_digits_bound(idp);
        reveal_with_fuel(pow10, 11);
        assert(pow10(9) == 1000000000) by {
            assert(pow10(0) == 1 && pow10(1) == 10 && pow10(2) == 100 && pow10(3) == 1000 && pow10(
                4,
            ) == 10000 && pow10(5) == 100000 && pow10(6) == 1000000 && pow10(7) == 10000000
                && pow10(8) == 100000000);
        }
        assert(pow10((c - start) as nat) <= pow10(9)) by {
            assert(pow10(0) == 1 && pow10(1) == 10 && pow10(2) == 100 && pow10(3) == 1000 && pow10(
                4,
            ) == 10000 && pow10(5) == 100000 && pow10(6) == 1000000 && pow10(7) == 10000000
                && pow10(8) == 100000000 && pow10(9) == 1000000000);
        }
        assert(acc <= 1000000000);
        let lim = line.skip((c - start) as int + 1);
        assert(lim.len() == 1);
        assert(lim[0] == src@[c as int + 1]);
        assert(48 <= lim[0] <= 57);
        assert(all_digits(lim));
        assert(parse_line(line) == Some((digits_val(idp) as u32, (lim[0] - 48) as u8)));
    }
    let id = acc as u32;
    Some((id, limb - 48))
}

/// Parses the stripped ban-list text: one `id,limit` record per line, blank
/// lines skipped; returns the records in text order, or fails on the first
/// malformed line.
pub fn parse(text: &Vec<u8>) -> (r: Result<Vec<(u32, u8)>, BanlistError>)
    ensures
        match r {
            Ok(v) => parse_banlist_spec(text@) == Some(v@),
            Err(_) => parse_banlist_spec(text@) is None,
        },
{
    let mut out: Vec<(u32, u8)> = Vec::new();
    let mut i: usize = 0;
    proof {
        assert(text@.skip(0) =~= text@);
    }
    while i < text.len()
        invariant
            i <= text@.len(),
            parse_banlist_spec(text@) == (match parse_banlist_spec(text@.skip(i as int)) {
                Some(v) => Some(out@ + v),
                None => None::<Seq<(u32, u8)>>,
            }),
        decreases text@.len() - i,
    {
        let ghost tail = text@.skip(i as int);
        let mut j: usize = i;
        while j < text.len() && text[j] != 10
            invariant
                i <= j <= text@.len(),
                forall|p: int| i <= p < j ==> text@[p] != 10,
            decreases text@.len() - j,
        {
            j += 1;
        }
        proof {
            if j < text@.len() {
                assert(tail[j - i] == text@[j as int]);
                assert forall|p: int| 0 <= p < j - i implies tail[p] != 10 by {
                    assert(tail[p] == text@[i + p]);
                }
                lemma_find_byte_at(tail, 10, j - i);
            } else {
                assert forall|p: int| 0 <= p < tail.len() implies tail[p] != 10 by {
                    assert(tail[p] == text@[i + p]);
                }
                lemma_find_byte_absent(tail, 10);
            }
            assert(tail.take((j - i) as int) =~= text@.subrange(i as int, j as int));
        }
        if j == i {
            // blank line
            proof {
                assert(tail.skip((j - i) as int + 1) =~= text@.skip(j as int + 1));
            }
            i = j + 1;
        } else {
            match parse_line_exec(text, i, j) {
                Some(e) => {
                    out.push(e);
                    proof {
                        if j < text@.len() {
                            assert(tail.skip((j - i) as int + 1) =~= text@.skip(j as int + 1));
                        } else {
                            assert(text@.skip(j as int) =~= Seq::<u8>::empty());
                        }
                        assert forall|v: Seq<(u32, u8)>| out@.drop_last() + (seq![e] + v) =~= out@
                            + v by {}
                    }
                    if j < text.len() {
                        i = j + 1;
                    } else {
                        i = j;
                    }
                },
                None => {
                    return Err(BanlistError::Malformed);
                },
            }
        }
    }
    proof {
        assert(text@.skip(text@.len() as int) =~= Seq::<u8>::empty());
        assert(out@ + Seq::<(u32, u8)>::empty() =~= out@);
    }
    Ok(out)
}

} // verus!
