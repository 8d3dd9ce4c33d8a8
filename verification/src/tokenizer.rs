//! Splitting a line of text into whitespace-separated tokens.
//!
//! Runs of whitespace are discarded, so every token is non-empty. The
//! whitespace set is Unicode's, the one Rust's `char::is_whitespace` accepts.

use vstd::prelude::*;

verus! {

/// Whether `c` is a whitespace character (Unicode `White_Space`).
pub open spec fn is_space(c: char) -> bool {
    ||| c == ' '
    ||| c == '\t'
    ||| c == '\n'
    ||| c == '\r'
    ||| c as u32 == 0x0B
    ||| c as u32 == 0x0C
    ||| c as u32 == 0x85
    ||| c as u32 == 0xA0
    ||| c as u32 == 0x1680
    ||| (0x2000 <= c as u32 && c as u32 <= 0x200A)
    ||| c as u32 == 0x2028
    ||| c as u32 == 0x2029
    ||| c as u32 == 0x202F
    ||| c as u32 == 0x205F
    ||| c as u32 == 0x3000
}

/// Decides `is_space`.
pub fn space_char(c: char) -> (r: bool)
    ensures
        r == is_space(c),
{
    let u = c as u32;
    u == 0x20 || u == 0x09 || u == 0x0A || u == 0x0D || u == 0x0B || u == 0x0C || u == 0x85 || u
        == 0xA0 || u == 0x1680 || (0x2000 <= u && u <= 0x200A) || u == 0x2028 || u == 0x2029 || u
        == 0x202F || u == 0x205F || u == 0x3000
}

/// The tokens of `s`, given that the characters of a partial token `cur`
/// directly precede `s`.
pub open spec fn tokens_from(s: Seq<char>, cur: Seq<char>) -> Seq<Seq<char>>
    decreases s.len(),
{
    if s.len() == 0 {
        if cur.len() == 0 {
            Seq::empty()
        } else {
            seq![cur]
        }
    } else if is_space(s[0]) {
        if cur.len() == 0 {
            tokens_from(s.drop_first(), Seq::empty())
        } else {
            seq![cur] + tokens_from(s.drop_first(), Seq::empty())
        }
    } else {
        tokens_from(s.drop_first(), cur.push(s[0]))
    }
}

/// The whitespace-separated tokens of `s`, in order.
pub open spec fn tokens(s: Seq<char>) -> Seq<Seq<char>> {
    tokens_from(s, Seq::empty())
}

/// Splits `line` into its whitespace-separated tokens.
pub fn tokenize(line: &str) -> (r: Vec<String>)
    ensures
        r.deep_view() == tokens(line@),
{
    let n = line.unicode_len();
    let mut out: Vec<String> = Vec::new();
    let mut cur: String = String::new();
    proof {
        assert(out.deep_view() =~= Seq::<Seq<char>>::empty());
        assert(line@.skip(0) =~= line@);
        assert(Seq::<Seq<char>>::empty() + tokens_from(line@, Seq::empty()) =~= tokens_from(
            line@,
            Seq::empty(),
        ));
    }
    for i in 0..n
        invariant
            n == line@.len(),
            tokens(line@) == out.deep_view() + tokens_from(line@.skip(i as int), cur@),
    {
        let c = line.get_char(i);
        proof {
            assert(line@.skip(i as int)[0] == line@[i as int]);
            assert(line@.skip(i as int).drop_first() =~= line@.skip(i as int + 1));
        }
        if space_char(c) {
            if !cur.as_str().is_empty() {
                let ghost pre_out = out.deep_view();
                let ghost pre_cur = cur@;
                let done = cur;
                cur = String::new();
                out.push(done);
                proof {
                    assert(out.deep_view() =~= pre_out.push(pre_cur));
                    assert(pre_out.push(pre_cur) + tokens_from(line@.skip(i as int + 1), cur@)
                        =~= pre_out + (seq![pre_cur] + tokens_from(
                        line@.skip(i as int + 1),
                        cur@,
                    )));
                }
            } else {
                proof {
                    assert(cur@ =~= Seq::<char>::empty());
                }
            }
        } else {
            let ghost pre_cur = cur@;
            cur.append(line.substring_char(i, i + 1));
            proof {
                assert(line@.subrange(i as int, i as int + 1) =~= seq![line@[i as int]]);
                assert(cur@ =~= pre_cur.push(line@[i as int]));
            }
        }
    }
    proof {
        assert(line@.skip(n as int) =~= Seq::<char>::empty());
    }
    if !cur.as_str().is_empty() {
        let ghost pre_out = out.deep_view();
        out.push(cur);
        proof {
            assert(out.deep_view() =~= pre_out.push(cur@));
            assert(pre_out.push(cur@) =~= pre_out + seq![cur@]);
        }
    } else {
        proof {
            assert(out.deep_view() + Seq::<Seq<char>>::empty() =~= out.deep_view());
        }
    }
    out
}

} // verus!
