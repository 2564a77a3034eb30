//! Shape checks and clean-up for request inputs.

use vstd::prelude::*;
use solana_sdk::pubkey::Pubkey;
use crate::text::{chars_of, occurs_at, utf8_len, utf8_longer_than, string_from_chars, push_decimal, decimal};

verus! {

#[verifier::external_type_specification]
#[verifier::external_body]
pub struct ExPubkey(Pubkey);

/// Whether `Pubkey::from_str` accepts the text.
pub uninterp spec fn parses_as_pubkey(s: Seq<char>) -> bool;

/// The key `Pubkey::from_str` reads from a text it accepts.
pub uninterp spec fn pubkey_from(s: Seq<char>) -> Pubkey;

/// What `char::is_alphanumeric` says of a character.
pub uninterp spec fn alphanumeric(c: char) -> bool;

/// Relies on solana_sdk's `Pubkey::from_str`: whether it accepts a text, and the key it
/// reads from it, depend on the text alone; it never panics; the error is its `Display`
/// text.
#[verifier::external_body]
fn parse_pubkey(s: &str) -> (r: Result<Pubkey, String>)
    ensures
        r is Ok <==> parses_as_pubkey(s@),
        r matches Ok(k) ==> k == pubkey_from(s@),
{
    <Pubkey as std::str::FromStr>::from_str(s).map_err(|e| e.to_string())
}

/// Relies on char::is_alphanumeric: alphabetic or numeric in Unicode, so true of the ASCII
/// letters and digits and false of every other ASCII character.
#[verifier::external_body]
fn is_alnum(c: char) -> (r: bool)
    ensures
        r == alphanumeric(c),
        ('a' <= c <= 'z' || 'A' <= c <= 'Z' || '0' <= c <= '9') ==> r,
        (c as u32) < 0x80 && !('a' <= c <= 'z' || 'A' <= c <= 'Z' || '0' <= c <= '9') ==> !r,
{
    c.is_alphanumeric()
}

/// Whether `s` ends with `suffix`.
pub open spec fn ends_with(s: Seq<char>, suffix: Seq<char>) -> bool {
    s.len() >= suffix.len() && s.subrange(s.len() - suffix.len(), s.len() as int) == suffix
}

/// Whether `s` starts with `prefix`.
pub open spec fn starts_with(s: Seq<char>, prefix: Seq<char>) -> bool {
    s.len() >= prefix.len() && s.take(prefix.len() as int) == prefix
}

/// The verdict on one dot-separated part of a custom domain, from its length in bytes.
pub open spec fn part_problem(len: nat) -> Option<Seq<char>> {
    if len == 0 {
        Some("Domain parts cannot be empty"@)
    } else if len > 63 {
        Some("Domain part too long (max 63 characters)"@)
    } else {
        None
    }
}

/// Reading `s` left to right: the first problem of a finished part, if any, and the byte
/// length of the part still open.
pub open spec fn scan_parts(s: Seq<char>) -> (Option<Seq<char>>, nat)
    decreases s.len(),
{
    if s.len() == 0 {
        (None, 0)
    } else {
        let prev = scan_parts(s.drop_last());
        if prev.0 is Some {
            prev
        } else if s.last() == '.' {
            (part_problem(prev.1), 0)
        } else {
            (None, prev.1 + crate::text::char_width(s.last()))
        }
    }
}

/// The problem of the first bad part of `s`, split at dots.
pub open spec fn parts_problem(s: Seq<char>) -> Option<Seq<char>> {
    let scan = scan_parts(s);
    if scan.0 is Some { scan.0 } else { part_problem(scan.1) }
}

/// Whether `c` is an ASCII letter or digit.
pub open spec fn ascii_alnum(c: char) -> bool {
    ('a' <= c && c <= 'z') || ('A' <= c && c <= 'Z') || ('0' <= c && c <= '9')
}

/// Whether `c` may stand in the label of a `.shadow` name: an ASCII letter, digit or
/// hyphen, or a non-ASCII character that is alphabetic or numeric.
pub open spec fn label_char(c: char) -> bool {
    if (c as u32) < 0x80 {
        ascii_alnum(c) || c == '-'
    } else {
        alphanumeric(c)
    }
}

/// What is wrong with the label of a `.shadow` name, if anything.
pub open spec fn shadow_label_problem(name: Seq<char>) -> Option<Seq<char>> {
    if name.len() == 0 {
        Some("Domain name cannot be empty"@)
    } else if utf8_len(name) > 63 {
        Some("Domain name too long (max 63 characters)"@)
    } else if exists|i: int| 0 <= i < name.len() && !label_char(#[trigger] name[i]) {
        Some("Domain name can only contain alphanumeric characters and hyphens"@)
    } else if name[0] == '-' || name.last() == '-' {
        Some("Domain name cannot start or end with a hyphen"@)
    } else {
        None
    }
}

/// What is wrong with a domain name, if anything: a `.shadow` name is checked by its
/// label, any other name as a dotted host name.
pub open spec fn domain_problem(s: Seq<char>) -> Option<Seq<char>> {
    if ends_with(s, ".shadow"@) {
        shadow_label_problem(s.take(s.len() - 7))
    } else if s.len() == 0 {
        Some("Domain cannot be empty"@)
    } else if utf8_len(s) > 253 {
        Some("Domain too long (max 253 characters)"@)
    } else if !s.contains('.') {
        Some("Domain must have at least a TLD"@)
    } else {
        parts_problem(s)
    }
}

/// What is wrong with a content identifier given with or without a scheme prefix, if
/// anything: the identifier proper must be `lo` to `hi` bytes long, and an empty text is
/// accepted.
pub open spec fn content_id_problem(
    s: Seq<char>,
    scheme: Seq<char>,
    lo: nat,
    hi: nat,
    empty_msg: Seq<char>,
    length_msg: Seq<char>,
) -> Option<Seq<char>> {
    if starts_with(s, scheme) {
        let rest = s.skip(scheme.len() as int);
        if rest.len() == 0 {
            Some(empty_msg)
        } else if utf8_len(rest) < lo || utf8_len(rest) > hi {
            Some(length_msg)
        } else {
            None
        }
    } else if s.len() != 0 && (utf8_len(s) < lo || utf8_len(s) > hi) {
        Some(length_msg)
    } else {
        None
    }
}

pub open spec fn ipfs_problem(s: Seq<char>) -> Option<Seq<char>> {
    content_id_problem(s, "ipfs://"@, 10, 100, "IPFS CID cannot be empty"@, "Invalid IPFS CID length"@)
}

pub open spec fn arweave_problem(s: Seq<char>) -> Option<Seq<char>> {
    content_id_problem(
        s,
        "arweave://"@,
        20,
        100,
        "Arweave transaction ID cannot be empty"@,
        "Invalid Arweave transaction ID length"@,
    )
}

/// Whether a character is a control code (Unicode general category Cc).
pub open spec fn is_control_code(c: char) -> bool {
    (c as u32) < 0x20 || (0x7f <= (c as u32) && (c as u32) <= 0x9f)
}

/// Whether sanitising keeps `c`: everything but control codes, and tab, line feed and
/// carriage return.
pub open spec fn kept(c: char) -> bool {
    !is_control_code(c) || c == '\n' || c == '\r' || c == '\t'
}

/// The characters of `s` that sanitising keeps, in order.
pub open spec fn sanitized(s: Seq<char>) -> Seq<char>
    decreases s.len(),
{
    if s.len() == 0 {
        s
    } else if kept(s.last()) {
        sanitized(s.drop_last()).push(s.last())
    } else {
        sanitized(s.drop_last())
    }
}

/// What is wrong with a search query, if anything.
pub open spec fn query_problem(s: Seq<char>) -> Option<Seq<char>> {
    if s.len() == 0 {
        Some("Search query cannot be empty"@)
    } else if utf8_len(s) > 200 {
        Some("Search query too long (max 200 characters)"@)
    } else {
        None
    }
}

/// Whether a verdict function's answer `r` says what `problem` says.
pub open spec fn reports(r: Result<(), String>, problem: Option<Seq<char>>) -> bool {
    match r {
        Ok(_) => problem is None,
        Err(m) => problem == Some(m@),
    }
}

/// Stateless input checks.
pub struct ApolloValidator;

impl ApolloValidator {
    pub fn new() -> (r: Self) {
        ApolloValidator
    }

    /// Accepts a wallet or program address that parses as a key.
    pub fn validate_pubkey(pubkey: &str) -> (r: Result<Pubkey, String>)
        ensures
            r is Ok <==> parses_as_pubkey(pubkey@),
            r matches Ok(k) ==> k == pubkey_from(pubkey@),
            r matches Err(m) ==> starts_with(m@, "Invalid Solana pubkey: "@),
    {
        match parse_pubkey(pubkey) {
            Ok(k) => Ok(k),
            Err(e) => {
                let mut m = String::from_str("Invalid Solana pubkey: ");
                m.append(e.as_str());
                proof {
                    assert(m@.take("Invalid Solana pubkey: "@.len() as int) == "Invalid Solana pubkey: "@);
                }
                Err(m)
            },
        }
    }

    /// Accepts a `.shadow` name with a well-formed label, or a dotted host name.
    pub fn validate_domain(domain: &str) -> (r: Result<(), String>)
        ensures
            reports(r, domain_problem(domain@)),
    {
        let cs = chars_of(domain);
        let suffix = chars_of(".shadow");
        proof {
            reveal_strlit(".shadow");
        }
        let n = cs.len();
        if n >= 7 && occurs_at(&suffix, &cs, n - 7) {
            let mut name: Vec<char> = Vec::new();
            let mut i: usize = 0;
            while i < n - 7
                invariant
                    n == cs@.len(),
                    n >= 7,
                    i <= n - 7,
                    name@ == cs@.take(i as int),
                decreases n - 7 - i,
            {
                name.push(cs[i]);
                i = i + 1;
                assert(name@ == cs@.take(i as int));
            }
            assert(name@ == domain@.take(domain@.len() - 7));
            return Self::check_label(&name);
        }
        assert(!ends_with(domain@, ".shadow"@));
        if n == 0 {
            return Err(String::from_str("Domain cannot be empty"));
        }
        if utf8_longer_than(&cs, 253) {
            return Err(String::from_str("Domain too long (max 253 characters)"));
        }
        Self::check_parts(&cs)
    }

    /// The checks on the label of a `.shadow` name.
    fn check_label(name: &Vec<char>) -> (r: Result<(), String>)
        ensures
            reports(r, shadow_label_problem(name@)),
    {
        if name.len() == 0 {
            return Err(String::from_str("Domain name cannot be empty"));
        }
        if utf8_longer_than(name, 63) {
            return Err(String::from_str("Domain name too long (max 63 characters)"));
        }
        let mut i: usize = 0;
        while i < name.len()
            invariant
                i <= name@.len(),
                name@.len() > 0,
                utf8_len(name@) <= 63,
                forall|j: int| 0 <= j < i ==> label_char(#[trigger] name@[j]),
            decreases name@.len() - i,
        {
            let c = name[i];
            if !is_alnum(c) && c != '-' {
                assert(!label_char(name@[i as int]));
                return Err(String::from_str("Domain name can only contain alphanumeric characters and hyphens"));
            }
            i = i + 1;
        }
        if name[0] == '-' || name[name.len() - 1] == '-' {
            return Err(String::from_str("Domain name cannot start or end with a hyphen"));
        }
        Ok(())
    }

    /// The checks on a dotted host name: at least one dot, and every part 1 to 63 bytes.
    fn check_parts(cs: &Vec<char>) -> (r: Result<(), String>)
        requires
            cs@.len() > 0,
        ensures
            r is Ok ==> cs@.contains('.') && parts_problem(cs@) is None,
            r matches Err(m) ==> (if !cs@.contains('.') {
                m@ == "Domain must have at least a TLD"@
            } else {
                parts_problem(cs@) == Some(m@)
            }),
    {
        let mut has_dot = false;
        let mut cur: usize = 0;
        let mut i: usize = 0;
        while i < cs.len()
            invariant
                i <= cs@.len(),
                scan_parts(cs@.take(i as int)) == (None::<Seq<char>>, cur as nat),
                cur <= 63,
                has_dot <==> cs@.take(i as int).contains('.'),
            decreases cs@.len() - i,
        {
            let ghost before = cs@.take(i as int);
            assert(cs@.take(i + 1).drop_last() == before);
            let c = cs[i];
            if c == '.' {
                has_dot = true;
                if cur == 0 || cur > 63 {
                    // the part that ends here is empty or too long: report it after the dot check
                    return Self::first_bad_part(cs, i, cur);
                }
                cur = 0;
            } else {
                let w = crate::text::width_of(c);
                if cur + w > 63 {
                    return Self::first_bad_part(cs, i, cur);
                }
                cur = cur + w;
            }
            i = i + 1;
            assert(cs@.take(i as int).contains('.') <==> (before.contains('.') || c == '.')) by {
                let t = cs@.take(i as int);
                assert(t == before.push(c));
                if c == '.' {
                    assert(t[t.len() - 1] == '.');
                }
                if before.contains('.') {
                    let k = choose|k: int| 0 <= k < before.len() && before[k] == '.';
                    assert(t[k] == '.');
                }
                if t.contains('.') && c != '.' {
                    let k = choose|k: int| 0 <= k < t.len() && t[k] == '.';
                    assert(before[k] == '.');
                }
            }
        }
        assert(cs@.take(cs@.len() as int) == cs@);
        if !has_dot {
            return Err(String::from_str("Domain must have at least a TLD"));
        }
        if cur == 0 {
            return Err(String::from_str("Domain parts cannot be empty"));
        }
        Ok(())
    }

    /// Finishes the reading of `cs` once the part open at position `i` is known to be bad.
    fn first_bad_part(cs: &Vec<char>, i: usize, cur: usize) -> (r: Result<(), String>)
        requires
            i < cs@.len(),
            scan_parts(cs@.take(i as int)) == (None::<Seq<char>>, cur as nat),
            cur <= 63,
            (cs@[i as int] == '.' && cur == 0) || (cs@[i as int] != '.' && cur + crate::text::char_width(cs@[i as int]) > 63),
        ensures
            r is Err,
            r matches Err(m) ==> (if !cs@.contains('.') {
                m@ == "Domain must have at least a TLD"@
            } else {
                parts_problem(cs@) == Some(m@)
            }),
    {
        // the whole text decides whether a dot is present at all
        let mut j: usize = 0;
        let mut found = false;
        while j < cs.len()
            invariant
                j <= cs@.len(),
                found <==> exists|k: int| 0 <= k < j && cs@[k] == '.',
            decreases cs@.len() - j,
        {
            if cs[j] == '.' {
                found = true;
            }
            j = j + 1;
        }
        if !found {
            assert(!cs@.contains('.'));
            return Err(String::from_str("Domain must have at least a TLD"));
        }
        proof {
            let k = choose|k: int| 0 <= k < cs@.len() && cs@[k] == '.';
            assert(cs@.contains('.'));
        }
        if cs[i] == '.' {
            proof {
                assert(cs@.take(i + 1).drop_last() == cs@.take(i as int));
                lemma_scan_keeps_problem(cs@, i + 1);
            }
            Err(String::from_str("Domain parts cannot be empty"))
        } else {
            proof {
                lemma_long_part(cs@, i as int, cur as nat);
            }
            Err(String::from_str("Domain part too long (max 63 characters)"))
        }
    }

    /// Accepts an IPFS content identifier, with or without `ipfs://`, of 10 to 100 bytes, or
    /// an empty text.
    pub fn validate_ipfs_cid(cid: &str) -> (r: Result<(), String>)
        ensures
            reports(r, ipfs_problem(cid@)),
    {
        let scheme = chars_of("ipfs://");
        check_content_id(
            cid,
            &scheme,
            10,
            100,
            String::from_str("IPFS CID cannot be empty"),
            String::from_str("Invalid IPFS CID length"),
        )
    }

    /// Accepts an Arweave transaction id, with or without `arweave://`, of 20 to 100 bytes,
    /// or an empty text.
    pub fn validate_arweave_tx(tx_id: &str) -> (r: Result<(), String>)
        ensures
            reports(r, arweave_problem(tx_id@)),
    {
        let scheme = chars_of("arweave://");
        check_content_id(
            tx_id,
            &scheme,
            20,
            100,
            String::from_str("Arweave transaction ID cannot be empty"),
            String::from_str("Invalid Arweave transaction ID length"),
        )
    }

    /// Drops control codes other than tab, line feed and carriage return; refuses a text
    /// longer than `max_length` bytes.
    pub fn sanitize_string(input: &str, max_length: usize) -> (r: Result<String, String>)
        ensures
            utf8_len(input@) > max_length ==> (r matches Err(m) && m@ == "String too long (max "@ + decimal(
                max_length as nat,
            ) + " characters)"@),
            utf8_len(input@) <= max_length ==> (r matches Ok(t) && t@ == sanitized(input@)),
    {
        let cs = chars_of(input);
        if utf8_longer_than(&cs, max_length) {
            let mut msg = chars_of("String too long (max ");
            push_decimal(&mut msg, max_length);
            let tail = chars_of(" characters)");
            let mut k: usize = 0;
            let ghost head = msg@;
            while k < tail.len()
                invariant
                    k <= tail@.len(),
                    msg@ == head + tail@.take(k as int),
                decreases tail@.len() - k,
            {
                msg.push(tail[k]);
                k = k + 1;
                assert(msg@ == head + tail@.take(k as int));
            }
            assert(tail@.take(tail@.len() as int) == tail@);
            return Err(string_from_chars(&msg));
        }
        let mut out: Vec<char> = Vec::new();
        let mut i: usize = 0;
        while i < cs.len()
            invariant
                i <= cs@.len(),
                out@ == sanitized(cs@.take(i as int)),
            decreases cs@.len() - i,
        {
            assert(cs@.take(i + 1).drop_last() == cs@.take(i as int));
            let c = cs[i];
            let v = c as u32;
            let control = v < 0x20 || (0x7f <= v && v <= 0x9f);
            if !control || c == '\n' || c == '\r' || c == '\t' {
                out.push(c);
            }
            i = i + 1;
        }
        assert(cs@.take(cs@.len() as int) == cs@);
        Ok(string_from_chars(&out))
    }

    /// Accepts a non-empty query of at most 200 bytes.
    pub fn validate_search_query(query: &str) -> (r: Result<(), String>)
        ensures
            reports(r, query_problem(query@)),
    {
        let cs = chars_of(query);
        if cs.len() == 0 {
            return Err(String::from_str("Search query cannot be empty"));
        }
        if utf8_longer_than(&cs, 200) {
            return Err(String::from_str("Search query too long (max 200 characters)"));
        }
        Ok(())
    }

    /// The page size asked for, 10 when none is given; refused outside 1 to 100.
    pub fn validate_limit(limit: Option<i64>) -> (r: Result<i64, String>)
        ensures
            ({
                let l = match limit {
                    Some(x) => x,
                    None => 10,
                };
                &&& l < 1 ==> (r matches Err(m) && m@ == "Limit must be at least 1"@)
                &&& l > 100 ==> (r matches Err(m) && m@ == "Limit cannot exceed 100"@)
                &&& 1 <= l <= 100 ==> r == Ok::<i64, String>(l)
            }),
    {
        let l = match limit {
            Some(x) => x,
            None => 10,
        };
        if l < 1 {
            return Err(String::from_str("Limit must be at least 1"));
        }
        if l > 100 {
            return Err(String::from_str("Limit cannot exceed 100"));
        }
        Ok(l)
    }
}

/// Shared check of a content identifier that may carry a scheme prefix.
fn check_content_id(
    s: &str,
    scheme: &Vec<char>,
    lo: usize,
    hi: usize,
    empty_msg: String,
    length_msg: String,
) -> (r: Result<(), String>)
    requires
        lo >= 1,
    ensures
        reports(r, content_id_problem(s@, scheme@, lo as nat, hi as nat, empty_msg@, length_msg@)),
{
    let cs = chars_of(s);
    let n = cs.len();
    let k = scheme.len();
    if n >= k && occurs_at(scheme, &cs, 0) {
        assert(cs@.subrange(0, k as int) == cs@.take(k as int));
        let mut rest: Vec<char> = Vec::new();
        let mut i: usize = k;
        while i < n
            invariant
                n == cs@.len(),
                k <= i <= n,
                rest@ == cs@.subrange(k as int, i as int),
            decreases n - i,
        {
            rest.push(cs[i]);
            i = i + 1;
            assert(rest@ == cs@.subrange(k as int, i as int));
        }
        assert(rest@ == s@.skip(k as int));
        if rest.len() == 0 {
            return Err(empty_msg);
        }
        if utf8_longer_than(&rest, hi) || !utf8_longer_than(&rest, lo - 1) {
            return Err(length_msg);
        }
        return Ok(());
    }
    assert(!starts_with(s@, scheme@)) by {
        if starts_with(s@, scheme@) {
            assert(cs@.subrange(0, k as int) == cs@.take(k as int));
        }
    }
    if n != 0 && (utf8_longer_than(&cs, hi) || !utf8_longer_than(&cs, lo - 1)) {
        return Err(length_msg);
    }
    Ok(())
}

/// Once a problem has been found, reading further does not change it.
proof fn lemma_scan_keeps_problem(s: Seq<char>, k: int)
    requires
        0 <= k <= s.len(),
        scan_parts(s.take(k)).0 is Some,
    ensures
        scan_parts(s).0 == scan_parts(s.take(k)).0,
    decreases s.len() - k,
{
    if k < s.len() {
        assert(s.take(k + 1).drop_last() == s.take(k));
        lemma_scan_keeps_problem(s, k + 1);
    } else {
        assert(s.take(k) == s);
    }
}

/// A part that has grown past 63 bytes is reported as too long, at its dot or at the end.
proof fn lemma_long_part(s: Seq<char>, i: int, cur: nat)
    requires
        0 <= i < s.len(),
        scan_parts(s.take(i)) == (None::<Seq<char>>, cur),
        s[i] != '.',
        cur + crate::text::char_width(s[i]) > 63,
    ensures
        parts_problem(s) == Some("Domain part too long (max 63 characters)"@),
    decreases s.len() - i,
{
    assert(s.take(i + 1).drop_last() == s.take(i));
    let c2 = cur + crate::text::char_width(s[i]);
    assert(scan_parts(s.take(i + 1)) == (None::<Seq<char>>, c2));
    lemma_long_open(s, i + 1, c2);
}

proof fn lemma_long_open(s: Seq<char>, k: int, cur: nat)
    requires
        0 <= k <= s.len(),
        scan_parts(s.take(k)) == (None::<Seq<char>>, cur),
        cur > 63,
    ensures
        parts_problem(s) == Some("Domain part too long (max 63 characters)"@),
    decreases s.len() - k,
{
    if k == s.len() {
        assert(s.take(k) == s);
    } else {
        assert(s.take(k + 1).drop_last() == s.take(k));
        if s[k] == '.' {
            lemma_scan_keeps_problem(s, k + 1);
        } else {
            lemma_long_open(s, k + 1, cur + crate::text::char_width(s[k]));
        }
    }
}

} // verus!
