//! The network-definition vocabulary: the kinds of elementary Boolean
//! link functions, one parsed line of a network definition, and the
//! errors a malformed definition produces.

use vstd::prelude::*;

verus! {

/// The kind of elementary link function an element follows.
#[derive(Clone, Copy, PartialEq, Eq, Structural, Debug)]
pub enum LinkType {
    COPY,
    NOT,
    OR,
    AND,
    XOR,
    ANY,
    ALL,
    EVEN,
    ODD,
    NOISY,
}

/// One parsed line of a network definition: the element's name, its
/// link kind, and the names of the elements it conditions on.
#[derive(Debug)]
pub struct LinkInfo {
    pub element: String,
    pub link_type: LinkType,
    pub condition: Vec<String>,
}

/// The ways a network definition can be rejected.
#[derive(Clone, Copy, PartialEq, Eq, Structural, Debug)]
pub enum SifError {
    /// A line has fewer than three whitespace-separated tokens.
    MissingTokens,
    /// A line's second token names no known link kind.
    UnknownLink,
    /// A link kind was given a number of conditions it does not take.
    InvalidConditionSize,
    /// Two lines define the same element name.
    DuplicateElement,
    /// A condition names an element that no line defines.
    UndefinedReference,
}

} // verus!

use vstd::string::StrSliceExecFns;

verus! {

/// The token separators of the line format.
pub open spec fn is_space(c: char) -> bool {
    c == ' ' || c == '\t' || c == '\r'
}

/// The length of the leading run of non-separator characters.
pub open spec fn spec_word_len(s: Seq<char>) -> nat
    decreases s.len(),
{
    if s.len() == 0 || is_space(s.first()) {
        0
    } else {
        1 + spec_word_len(s.drop_first())
    }
}

/// The leading word is never longer than the line, and is non-empty
/// when the line opens with a non-separator.
pub proof fn lemma_word_len_bounds(s: Seq<char>)
    ensures
        spec_word_len(s) <= s.len(),
        s.len() > 0 && !is_space(s.first()) ==> spec_word_len(s) >= 1,
    decreases s.len(),
{
    if s.len() > 0 && !is_space(s.first()) {
        lemma_word_len_bounds(s.drop_first());
    }
}

/// The whitespace-separated tokens of a line, in order.
pub open spec fn spec_tokens(s: Seq<char>) -> Seq<Seq<char>>
    decreases s.len(),
    via spec_tokens_decreases
{
    if s.len() == 0 {
        Seq::empty()
    } else if is_space(s.first()) {
        spec_tokens(s.drop_first())
    } else {
        seq![s.take(spec_word_len(s) as int)] + spec_tokens(s.skip(spec_word_len(s) as int))
    }
}

#[via_fn]
proof fn spec_tokens_decreases(s: Seq<char>) {
    if s.len() != 0 && !is_space(s.first()) {
        lemma_word_len_bounds(s);
    }
}

/// A leading run of `k` non-separators closed off by a separator or
/// the end is exactly the first word.
proof fn lemma_word_len(s: Seq<char>, k: nat)
    requires
        k <= s.len(),
        forall|x: int| 0 <= x < k ==> !is_space(s[x]),
        k == s.len() || is_space(s[k as int]),
    ensures
        spec_word_len(s) == k,
    decreases k,
{
    if k == 0 {
    } else {
        assert(!is_space(s.first()));
        let rest = s.drop_first();
        assert forall|x: int| 0 <= x < k - 1 implies !is_space(rest[x]) by {
            assert(rest[x] == s[x + 1]);
        }
        if k < s.len() {
            assert(rest[(k - 1) as int] == s[k as int]);
        }
        lemma_word_len(rest, (k - 1) as nat);
    }
}

/// Skipping a leading separator changes nothing about the tokens of
/// the rest of the line.
proof fn lemma_tokens_step(s: Seq<char>, i: nat)
    requires
        i < s.len(),
    ensures
        is_space(s[i as int]) ==> spec_tokens(s.skip(i as int)) == spec_tokens(
            s.skip(i as int + 1),
        ),
    decreases s.len(),
{
    if is_space(s[i as int]) {
        let suf = s.skip(i as int);
        assert(suf.first() == s[i as int]);
        assert(suf.drop_first() =~= s.skip(i as int + 1));
    }
}

/// The name of a link kind, or nothing when the token names none.
pub open spec fn spec_link_of_name(name: Seq<char>) -> Option<LinkType> {
    if name == "COPY"@ {
        Some(LinkType::COPY)
    } else if name == "NOT"@ {
        Some(LinkType::NOT)
    } else if name == "OR"@ {
        Some(LinkType::OR)
    } else if name == "AND"@ {
        Some(LinkType::AND)
    } else if name == "XOR"@ {
        Some(LinkType::XOR)
    } else if name == "ANY"@ {
        Some(LinkType::ANY)
    } else if name == "ALL"@ {
        Some(LinkType::ALL)
    } else if name == "EVEN"@ {
        Some(LinkType::EVEN)
    } else if name == "ODD"@ {
        Some(LinkType::ODD)
    } else if name == "NOISY"@ {
        Some(LinkType::NOISY)
    } else {
        None
    }
}

/// Two string slices hold the same characters.
fn str_eq(a: &str, b: &str) -> (r: bool)
    ensures
        r == (a@ == b@),
{
    let na = a.unicode_len();
    let nb = b.unicode_len();
    if na != nb {
        proof {
            assert(a@.len() != b@.len());
        }
        return false;
    }
    let mut i: usize = 0;
    while i < na
        invariant
            i <= na,
            na == a@.len(),
            na == b@.len(),
            forall|x: int| 0 <= x < i ==> a@[x] == b@[x],
        decreases na - i,
    {
        if a.get_char(i) != b.get_char(i) {
            return false;
        }
        i = i + 1;
    }
    proof {
        assert(a@ =~= b@);
    }
    true
}

/// Reads a link kind from its name.
fn link_of_name(name: &str) -> (r: Option<LinkType>)
    ensures
        r == spec_link_of_name(name@),
{
    if str_eq(name, "COPY") {
        Some(LinkType::COPY)
    } else if str_eq(name, "NOT") {
        Some(LinkType::NOT)
    } else if str_eq(name, "OR") {
        Some(LinkType::OR)
    } else if str_eq(name, "AND") {
        Some(LinkType::AND)
    } else if str_eq(name, "XOR") {
        Some(LinkType::XOR)
    } else if str_eq(name, "ANY") {
        Some(LinkType::ANY)
    } else if str_eq(name, "ALL") {
        Some(LinkType::ALL)
    } else if str_eq(name, "EVEN") {
        Some(LinkType::EVEN)
    } else if str_eq(name, "ODD") {
        Some(LinkType::ODD)
    } else if str_eq(name, "NOISY") {
        Some(LinkType::NOISY)
    } else {
        None
    }
}

/// Splits a line into its whitespace-separated tokens.
fn tokenize(line: &str) -> (tokens: Vec<String>)
    ensures
        tokens@.map_values(|t: String| t@) == spec_tokens(line@),
{
    let n = line.unicode_len();
    let mut tokens: Vec<String> = Vec::new();
    let mut i: usize = 0;
    proof {
        assert(line@.skip(0) =~= line@);
        assert(tokens@.map_values(|t: String| t@) =~= Seq::<Seq<char>>::empty());
    }
    while i < n
        invariant
            i <= n == line@.len(),
            tokens@.map_values(|t: String| t@) + spec_tokens(line@.skip(i as int))
                =~= spec_tokens(line@),
        decreases n - i,
    {
        let c = line.get_char(i);
        if c == ' ' || c == '\t' || c == '\r' {
            proof {
                lemma_tokens_step(line@, i as nat);
            }
            i = i + 1;
        } else {
            let mut j: usize = i + 1;
            let mut at_word_end = false;
            while !at_word_end
                invariant
                    i < j <= n == line@.len(),
                    forall|x: int| i <= x < j ==> !is_space(line@[x]),
                    at_word_end ==> j == n || is_space(line@[j as int]),
                decreases n - j + if at_word_end {
                    0int
                } else {
                    1int
                },
            {
                if j >= n {
                    at_word_end = true;
                } else {
                    let cj = line.get_char(j);
                    if cj == ' ' || cj == '\t' || cj == '\r' {
                        at_word_end = true;
                    } else {
                        j = j + 1;
                    }
                }
            }
            let token = line.substring_char(i, j);
            tokens.push(token.to_owned());
            proof {
                let suf = line@.skip(i as int);
                assert forall|x: int| 0 <= x < j - i implies !is_space(suf[x]) by {
                    assert(suf[x] == line@[i + x]);
                }
                if j < n {
                    assert(suf[(j - i) as int] == line@[j as int]);
                }
                lemma_word_len(suf, (j - i) as nat);
                assert(!is_space(suf.first()));
                assert(suf.take((j - i) as int) =~= line@.subrange(i as int, j as int));
                assert(suf.skip((j - i) as int) =~= line@.skip(j as int));
                assert(spec_tokens(suf) == seq![line@.subrange(i as int, j as int)]
                    + spec_tokens(line@.skip(j as int)));
            }
            i = j;
        }
    }
    proof {
        assert(line@.skip(n as int) =~= Seq::<char>::empty());
        assert(tokens@.map_values(|t: String| t@) + Seq::<Seq<char>>::empty()
            =~= tokens@.map_values(|t: String| t@));
    }
    tokens
}

/// Parses one line of a network definition: the element's name, the
/// link kind, and at least one condition name, whitespace-separated.
/// Fails with `MissingTokens` exactly when fewer than three tokens are
/// present, and with `UnknownLink` exactly when the second token names
/// no link kind.
pub fn parse_sif_line(line: &str) -> (r: Result<LinkInfo, SifError>)
    ensures
        (r is Ok) == (spec_tokens(line@).len() >= 3 && spec_link_of_name(
            spec_tokens(line@)[1],
        ) is Some),
        r matches Ok(info) ==> {
            &&& info.element@ == spec_tokens(line@)[0]
            &&& Some(info.link_type) == spec_link_of_name(spec_tokens(line@)[1])
            &&& info.condition@.map_values(|c: String| c@) == spec_tokens(line@).skip(2)
        },
        (r == Err::<LinkInfo, SifError>(SifError::MissingTokens)) == (spec_tokens(
            line@,
        ).len() < 3),
        (r == Err::<LinkInfo, SifError>(SifError::UnknownLink)) == (spec_tokens(line@).len()
            >= 3 && spec_link_of_name(spec_tokens(line@)[1]) is None),
{
    let tokens = tokenize(line);
    if tokens.len() < 3 {
        return Err(SifError::MissingTokens);
    }
    let link_type = match link_of_name(tokens[1].as_str()) {
        Some(l) => l,
        None => {
            proof {
                assert(tokens@.map_values(|t: String| t@)[1] == tokens@[1]@);
            }
            return Err(SifError::UnknownLink);
        },
    };
    let element = tokens[0].clone();
    let mut condition: Vec<String> = Vec::new();
    let mut k: usize = 2;
    while k < tokens.len()
        invariant
            2 <= k <= tokens@.len(),
            condition@.map_values(|c: String| c@) =~= tokens@.map_values(
                |t: String| t@,
            ).subrange(2, k as int),
        decreases tokens@.len() - k,
    {
        condition.push(tokens[k].clone());
        proof {
            let mapped = tokens@.map_values(|t: String| t@);
            assert(mapped[k as int] == tokens@[k as int]@);
            assert(mapped.subrange(2, k + 1) =~= mapped.subrange(2, k as int).push(
                mapped[k as int]));
            assert(condition@.map_values(|c: String| c@) =~= mapped.subrange(2, k + 1));
        }
        k = k + 1;
    }
    proof {
        assert(tokens@.map_values(|t: String| t@).subrange(2, tokens@.len() as int)
            =~= tokens@.map_values(|t: String| t@).skip(2));
        assert(tokens@.map_values(|t: String| t@)[0] == tokens@[0]@);
        assert(tokens@.map_values(|t: String| t@)[1] == tokens@[1]@);
    }
    Ok(LinkInfo { element: element, link_type: link_type, condition: condition })
}

} // verus!
