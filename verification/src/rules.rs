use vstd::prelude::*;

verus! {

/// Forward connections arriving on the server's public `remote_port` to
/// `local_port` on this machine.
#[derive(Debug, Clone, Copy, PartialEq, Eq, Structural)]
pub struct ForwardRule {
    pub local_port: u16,
    pub remote_port: u16,
}

/// Which part of a rule's text is wrong.
#[derive(Debug, Clone, Copy, PartialEq, Eq, Structural)]
pub enum RuleFault {
    /// The text is not two parts separated by a single `:`.
    Format,
    /// The part before the `:` is not a port number.
    LocalPort,
    /// The part after the `:` is not a port number.
    RemotePort,
}

pub open spec fn is_digit(c: char) -> bool {
    48 <= (c as u32) <= 57
}

pub open spec fn digit_value(c: char) -> nat {
    ((c as u32) - 48) as nat
}

pub open spec fn all_digits(s: Seq<char>) -> bool {
    forall|i: int| 0 <= i < s.len() ==> is_digit(#[trigger] s[i])
}

/// The number that a string of decimal digits stands for.
pub open spec fn digits_value(s: Seq<char>) -> nat
    decreases s.len(),
{
    if s.len() == 0 {
        0
    } else {
        digits_value(s.drop_last()) * 10 + digit_value(s.last())
    }
}

/// The digits of a port number's text: what follows an optional leading `+`.
pub open spec fn unsigned_part(s: Seq<char>) -> Seq<char> {
    if s.len() > 0 && s[0] == '+' {
        s.drop_first()
    } else {
        s
    }
}

/// A port number written in decimal, as `u16`'s `FromStr` reads it: an
/// optional `+`, then one or more decimal digits, standing for at most 65535.
pub open spec fn parse_port(s: Seq<char>) -> Option<u16> {
    let d = unsigned_part(s);
    if d.len() > 0 && all_digits(d) && digits_value(d) <= u16::MAX {
        Some(digits_value(d) as u16)
    } else {
        None
    }
}

/// `s` holds exactly one `:`, at position `i`.
pub open spec fn single_colon_at(s: Seq<char>, i: int) -> bool {
    &&& 0 <= i < s.len()
    &&& s[i] == ':'
    &&& forall|j: int| 0 <= j < s.len() && j != i ==> s[j] != ':'
}

/// A forwarding rule written `local_port:remote_port`.
pub open spec fn parse_rule(s: Seq<char>) -> Result<ForwardRule, RuleFault> {
    if exists|i: int| single_colon_at(s, i) {
        let i = choose|i: int| single_colon_at(s, i);
        match parse_port(s.take(i)) {
            None => Err(RuleFault::LocalPort),
            Some(local_port) => match parse_port(s.skip(i + 1)) {
                None => Err(RuleFault::RemotePort),
                Some(remote_port) => Ok(ForwardRule { local_port, remote_port }),
            },
        }
    } else {
        Err(RuleFault::Format)
    }
}

proof fn lemma_digits_value_prefix(s: Seq<char>, k: int)
    requires
        0 <= k < s.len(),
    ensures
        digits_value(s.take(k + 1)) == digits_value(s.take(k)) * 10 + digit_value(s[k]),
{
    assert(s.take(k + 1).drop_last() =~= s.take(k));
}

proof fn lemma_digits_value_grows(s: Seq<char>, k: int)
    requires
        0 <= k <= s.len(),
    ensures
        digits_value(s.take(k)) <= digits_value(s),
    decreases s.len() - k,
{
    if k < s.len() {
        lemma_digits_value_prefix(s, k);
        lemma_digits_value_grows(s, k + 1);
    } else {
        assert(s.take(k) =~= s);
    }
}

/// Reads a port number from `chars[lo..hi]`.
fn parse_port_chars(chars: &Vec<char>, lo: usize, hi: usize) -> (r: Option<u16>)
    requires
        lo <= hi <= chars@.len(),
    ensures
        r == parse_port(chars@.subrange(lo as int, hi as int)),
{
    let ghost s = chars@.subrange(lo as int, hi as int);
    let mut start = lo;
    if lo < hi && chars[lo] == '+' {
        start = lo + 1;
    }
    let ghost d = chars@.subrange(start as int, hi as int);
    assert(d =~= unsigned_part(s));
    if start == hi {
        return None;
    }
    let mut value: u32 = 0;
    let mut k = start;
    while k < hi
        invariant
            lo <= start <= k <= hi <= chars@.len(),
            d == chars@.subrange(start as int, hi as int),
            d == unsigned_part(chars@.subrange(lo as int, hi as int)),
            d.len() > 0,
            value as nat == digits_value(d.take(k - start)),
            value <= 65535,
            all_digits(d.take(k - start)),
        decreases hi - k,
    {
        let c = chars[k];
        let code = c as u32;
        assert(d[k - start] == c);
        if code < 48 || code > 57 {
            assert(!is_digit(d[k - start]));
            return None;
        }
        proof {
            lemma_digits_value_prefix(d, k - start);
            assert forall|i: int| 0 <= i < d.take(k - start + 1).len() implies is_digit(
                #[trigger] d.take(k - start + 1)[i],
            ) by {
                if i < k - start {
                    assert(d.take(k - start + 1)[i] == d.take(k - start)[i]);
                }
            }
        }
        let next = value * 10 + (code - 48);
        if next > 65535 {
            proof {
                if all_digits(d) {
                    lemma_digits_value_grows(d, k - start + 1);
                }
            }
            return None;
        }
        value = next;
        k = k + 1;
    }
    assert(d.take(k - start) =~= d);
    Some(value as u16)
}

/// The characters of `s`, one by one.
fn chars_of(s: &str) -> (v: Vec<char>)
    ensures
        v@ == s@,
{
    let mut v: Vec<char> = Vec::new();
    for c in it: s.chars()
        invariant
            v@ == it.seq().take(it.index()),
    {
        v.push(c);
        assert(v@ =~= it.seq().take(it.index() + 1));
    }
    assert(v@ =~= s@);
    v
}

/// Why the forwarding rules given on the command line are refused; a rule's
/// text is kept for the message.
#[derive(Debug, Clone, PartialEq, Eq)]
pub enum ForwardRuleError {
    /// A rule is not of the form `local_port:remote_port`.
    InvalidFormat(String),
    /// A rule's local port is not a port number.
    InvalidLocalPort(String),
    /// A rule's remote port is not a port number.
    InvalidRemotePort(String),
    /// No rule was given.
    NoRules,
}

/// `e` reports fault `fault` in the rule written `text`.
pub open spec fn reports(e: ForwardRuleError, fault: RuleFault, text: Seq<char>) -> bool {
    match fault {
        RuleFault::Format => e matches ForwardRuleError::InvalidFormat(t) && t@ == text,
        RuleFault::LocalPort => e matches ForwardRuleError::InvalidLocalPort(t) && t@ == text,
        RuleFault::RemotePort => e matches ForwardRuleError::InvalidRemotePort(t) && t@ == text,
    }
}

/// Reads one forwarding rule written `local_port:remote_port`.
pub fn parse_forward_rule(rule: &str) -> (r: Result<ForwardRule, ForwardRuleError>)
    ensures
        match parse_rule(rule@) {
            Ok(fr) => r == Ok::<ForwardRule, ForwardRuleError>(fr),
            Err(fault) => r matches Err(e) && reports(e, fault, rule@),
        },
{
    let chars = chars_of(rule);
    let n = chars.len();
    let mut first: Option<usize> = None;
    let mut second: Option<usize> = None;
    let mut k: usize = 0;
    while k < n && second.is_none()
        invariant
            n == chars@.len(),
            k <= n,
            second is None ==> match first {
                None => forall|j: int| 0 <= j < k ==> chars@[j] != ':',
                Some(f) => {
                    &&& f < k
                    &&& chars@[f as int] == ':'
                    &&& forall|j: int| 0 <= j < k && j != f ==> chars@[j] != ':'
                },
            },
            second matches Some(g) ==> first matches Some(f) && f < g < n && chars@[f as int]
                == ':' && chars@[g as int] == ':',
        decreases n - k,
    {
        if chars[k] == ':' {
            match first {
                None => {
                    first = Some(k);
                },
                Some(f) => {
                    second = Some(k);
                },
            }
        }
        k = k + 1;
    }
    let text = String::from_str(rule);
    match (first, second) {
        (Some(f), None) => {
            assert(k == n);
            assert(single_colon_at(chars@, f as int));
            proof {
                assert forall|i: int| single_colon_at(chars@, i) implies i == f by {
                }
            }
            let local = parse_port_chars(&chars, 0, f);
            assert(chars@.subrange(0, f as int) =~= chars@.take(f as int));
            let local_port = match local {
                Some(p) => p,
                None => {
                    return Err(ForwardRuleError::InvalidLocalPort(text));
                },
            };
            let remote = parse_port_chars(&chars, f + 1, n);
            assert(chars@.subrange(f + 1, n as int) =~= chars@.skip(f + 1));
            match remote {
                Some(remote_port) => Ok(ForwardRule { local_port, remote_port }),
                None => Err(ForwardRuleError::InvalidRemotePort(text)),
            }
        },
        _ => {
            proof {
                assert forall|i: int| !single_colon_at(chars@, i) by {
                    if single_colon_at(chars@, i) {
                        match second {
                            Some(g) => {
                                let f = first->0;
                                assert(i == f as int || i == g as int);
                            },
                            None => {
                                assert(k == n);
                            },
                        }
                    }
                }
            }
            Err(ForwardRuleError::InvalidFormat(text))
        },
    }
}

/// The texts of a list of rules.
pub open spec fn rule_texts(rules: Seq<String>) -> Seq<Seq<char>> {
    rules.map_values(|t: String| t@)
}

/// Every rule in `rules` reads well.
pub open spec fn all_rules_read(rules: Seq<Seq<char>>) -> bool {
    forall|i: int| 0 <= i < rules.len() ==> #[trigger] parse_rule(rules[i]) is Ok
}

/// Rule `i` is the first in `rules` that does not read.
pub open spec fn first_bad_rule(rules: Seq<Seq<char>>, i: int) -> bool {
    &&& 0 <= i < rules.len()
    &&& parse_rule(rules[i]) is Err
    &&& forall|j: int| 0 <= j < i ==> #[trigger] parse_rule(rules[j]) is Ok
}

/// Reads the forwarding rules given on the command line, in order. The first
/// rule that does not read is reported; an empty list is refused.
pub fn parse_forward_rules(rules: &Vec<String>) -> (r: Result<Vec<ForwardRule>, ForwardRuleError>)
    ensures
        all_rules_read(rule_texts(rules@)) && rules@.len() > 0 ==> (r matches Ok(
            v,
        ) && v@.len() == rules@.len() && forall|i: int|
            0 <= i < rules@.len() ==> parse_rule(rules@[i]@) == Ok::<ForwardRule, RuleFault>(
                #[trigger] v@[i],
            )),
        rules@.len() == 0 ==> r == Err::<Vec<ForwardRule>, ForwardRuleError>(
            ForwardRuleError::NoRules,
        ),
        forall|i: int|
            #[trigger] first_bad_rule(rule_texts(rules@), i) ==> (r matches Err(e) && reports(
                e,
                parse_rule(rules@[i]@)->Err_0,
                rules@[i]@,
            )),
{
    let ghost texts = rule_texts(rules@);
    let mut out: Vec<ForwardRule> = Vec::new();
    let n = rules.len();
    for k in 0..n
        invariant
            n == rules@.len(),
            texts == rule_texts(rules@),
            out@.len() == k,
            forall|i: int| 0 <= i < k ==> parse_rule(rules@[i]@) == Ok::<ForwardRule, RuleFault>(
                #[trigger] out@[i],
            ),
    {
        let rule = rules[k].as_str();
        match parse_forward_rule(rule) {
            Ok(fr) => {
                out.push(fr);
            },
            Err(e) => {
                proof {
                    assert(texts[k as int] == rules@[k as int]@);
                    assert forall|i: int| first_bad_rule(texts, i) implies i == k by {
                        if i < k {
                            assert(texts[i] == rules@[i]@);
                            assert(parse_rule(rules@[i]@) == Ok::<ForwardRule, RuleFault>(out@[i]));
                        } else if i > k {
                            assert(parse_rule(texts[k as int]) is Ok);
                        }
                    }
                }
                return Err(e);
            },
        }
    }
    proof {
        assert forall|i: int| !first_bad_rule(texts, i) by {
            if 0 <= i < n {
                assert(texts[i] == rules@[i]@);
                assert(parse_rule(rules@[i]@) == Ok::<ForwardRule, RuleFault>(out@[i]));
            }
        }
    }
    if n == 0 {
        return Err(ForwardRuleError::NoRules);
    }
    Ok(out)
}

impl ForwardRuleError {
    /// The message that explains the refusal.
    pub fn message(&self) -> (m: String)
        ensures
            m@ == match self {
                ForwardRuleError::InvalidFormat(t) => "Invalid forward rule: "@ + t@
                    + ". Use format local_port:remote_port"@,
                ForwardRuleError::InvalidLocalPort(t) => "Invalid local port in rule: "@ + t@,
                ForwardRuleError::InvalidRemotePort(t) => "Invalid remote port in rule: "@ + t@,
                ForwardRuleError::NoRules => "No forwarding rules specified. Use --forward local:remote"@,
            },
    {
        match self {
            ForwardRuleError::InvalidFormat(t) => String::from_str("Invalid forward rule: ").concat(
                t.as_str(),
            ).concat(". Use format local_port:remote_port"),
            ForwardRuleError::InvalidLocalPort(t) => String::from_str(
                "Invalid local port in rule: ",
            ).concat(t.as_str()),
            ForwardRuleError::InvalidRemotePort(t) => String::from_str(
                "Invalid remote port in rule: ",
            ).concat(t.as_str()),
            ForwardRuleError::NoRules => String::from_str(
                "No forwarding rules specified. Use --forward local:remote",
            ),
        }
    }
}

/// The decimal digit for `d` (below ten).
pub open spec fn digit_char(d: nat) -> char {
    (d + 48) as char
}

/// `n` written in decimal, without leading zeros.
pub open spec fn decimal(n: nat) -> Seq<char>
    decreases n,
{
    if n < 10 {
        seq![digit_char(n)]
    } else {
        decimal(n / 10).push(digit_char(n % 10))
    }
}

/// A rule written the way the command line expects it: `local_port:remote_port`.
pub open spec fn rule_text(rule: ForwardRule) -> Seq<char> {
    decimal(rule.local_port as nat) + seq![':'] + decimal(rule.remote_port as nat)
}

proof fn lemma_decimal(n: nat)
    ensures
        decimal(n).len() > 0,
        all_digits(decimal(n)),
        digits_value(decimal(n)) == n,
    decreases n,
{
    if n < 10 {
        assert(digit_value(digit_char(n)) == n);
        assert(decimal(n).drop_last() =~= Seq::<char>::empty());
        assert(digits_value(Seq::<char>::empty()) == 0);
        assert(decimal(n).last() == digit_char(n));
    } else {
        lemma_decimal(n / 10);
        let d = decimal(n);
        assert(d.drop_last() =~= decimal(n / 10));
        assert(digit_value(digit_char(n % 10)) == n % 10);
        assert(d.last() == digit_char(n % 10));
        assert((n / 10) * 10 + n % 10 == n);
        assert forall|i: int| 0 <= i < d.len() implies is_digit(#[trigger] d[i]) by {
            if i < d.len() - 1 {
                assert(d[i] == decimal(n / 10)[i]);
            }
        }
    }
}

proof fn lemma_parse_decimal(n: nat)
    requires
        n <= u16::MAX,
    ensures
        parse_port(decimal(n)) == Some(n as u16),
        forall|i: int| 0 <= i < decimal(n).len() ==> #[trigger] decimal(n)[i] != ':',
{
    lemma_decimal(n);
    let d = decimal(n);
    assert(is_digit(d[0]));
    assert(unsigned_part(d) == d);
    assert forall|i: int| 0 <= i < d.len() implies #[trigger] d[i] != ':' by {
        assert(is_digit(d[i]));
    }
}

/// Every rule written `local_port:remote_port`, each port in decimal, reads
/// back as that rule.
pub proof fn lemma_rule_text_reads_back(rule: ForwardRule)
    ensures
        parse_rule(rule_text(rule)) == Ok::<ForwardRule, RuleFault>(rule),
{
    let a = decimal(rule.local_port as nat);
    let b = decimal(rule.remote_port as nat);
    lemma_parse_decimal(rule.local_port as nat);
    lemma_parse_decimal(rule.remote_port as nat);
    let s = rule_text(rule);
    let k = a.len() as int;
    assert(s[k] == ':');
    assert forall|j: int| 0 <= j < s.len() && j != k implies s[j] != ':' by {
        if j < k {
            assert(s[j] == a[j]);
        } else {
            assert(s[j] == b[j - k - 1]);
        }
    }
    assert(single_colon_at(s, k));
    assert forall|i: int| single_colon_at(s, i) implies i == k by {
    }
    assert(s.take(k) =~= a);
    assert(s.skip(k + 1) =~= b);
}

/// A port's text is refused when it is empty or only a `+`, when a character
/// after the optional `+` is not a decimal digit, or when it stands for more
/// than 65535; a `+` or leading zeros in front of a port number change
/// nothing.
pub proof fn lemma_port_text(s: Seq<char>, n: nat, k: int)
    ensures
        parse_port(Seq::empty()) is None,
        parse_port(seq!['+']) is None,
        0 <= k < unsigned_part(s).len() && !is_digit(unsigned_part(s)[k]) ==> parse_port(s) is None,
        n > u16::MAX ==> parse_port(decimal(n)) is None,
        n <= u16::MAX ==> parse_port(seq!['+'] + decimal(n)) == Some(n as u16),
        n <= u16::MAX ==> parse_port(seq!['0'] + decimal(n)) == Some(n as u16),
{
    assert(seq!['+'].drop_first() =~= Seq::<char>::empty());
    lemma_decimal(n);
    let d = decimal(n);
    assert(is_digit(d[0]));
    assert(unsigned_part(d) == d);
    let p = seq!['+'] + d;
    assert(p.drop_first() =~= d);
    let z = seq!['0'] + d;
    assert(is_digit(z[0]));
    assert(unsigned_part(z) == z);
    assert(all_digits(z)) by {
        assert forall|i: int| 0 <= i < z.len() implies is_digit(#[trigger] z[i]) by {
            if i > 0 {
                assert(z[i] == d[i - 1]);
            }
        }
    }
    lemma_leading_zero(d);
}

proof fn lemma_leading_zero(d: Seq<char>)
    ensures
        digits_value(seq!['0'] + d) == digits_value(d),
    decreases d.len(),
{
    let z = seq!['0'] + d;
    if d.len() == 0 {
        assert(z.drop_last() =~= Seq::<char>::empty());
        assert(digits_value(Seq::<char>::empty()) == 0);
    } else {
        lemma_leading_zero(d.drop_last());
        assert(z.drop_last() =~= seq!['0'] + d.drop_last());
        assert(z.last() == d.last());
    }
}

/// A rule's text without a `:`, or with two of them, is refused as badly
/// formed.
pub proof fn lemma_rule_needs_one_colon(s: Seq<char>, i: int, j: int)
    ensures
        (forall|k: int| 0 <= k < s.len() ==> s[k] != ':') ==> parse_rule(s) == Err::<
            ForwardRule,
            RuleFault,
        >(RuleFault::Format),
        0 <= i < j < s.len() && s[i] == ':' && s[j] == ':' ==> parse_rule(s) == Err::<
            ForwardRule,
            RuleFault,
        >(RuleFault::Format),
{
    if 0 <= i < j < s.len() && s[i] == ':' && s[j] == ':' {
        assert forall|x: int| !single_colon_at(s, x) by {
            if single_colon_at(s, x) {
                assert(x == i);
                assert(x == j);
            }
        }
    }
}

/// A rule that reads is the text of its local port, one `:`, and the text of
/// its remote port.
pub proof fn lemma_rule_reads_from_its_parts(s: Seq<char>)
    requires
        parse_rule(s) is Ok,
    ensures
        exists|i: int|
            0 <= i < s.len() && s[i] == ':' && parse_port(s.take(i)) == Some(
                parse_rule(s)->Ok_0.local_port,
            ) && parse_port(s.skip(i + 1)) == Some(parse_rule(s)->Ok_0.remote_port)
                && !s.take(i).contains(':') && !s.skip(i + 1).contains(':'),
{
    let i = choose|i: int| single_colon_at(s, i);
    assert(!s.take(i).contains(':')) by {
        if s.take(i).contains(':') {
            let k = choose|k: int| 0 <= k < s.take(i).len() && #[trigger] s.take(i)[k] == ':';
            assert(s[k] == ':');
        }
    }
    assert(!s.skip(i + 1).contains(':')) by {
        if s.skip(i + 1).contains(':') {
            let k = choose|k: int| 0 <= k < s.skip(i + 1).len() && #[trigger] s.skip(i + 1)[k] == ':';
            assert(s[k + i + 1] == ':');
        }
    }
}

} // verus!
