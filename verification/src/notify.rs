//! The notifier's pure parts: parsing the SMTP server value and composing
//! the fixed-format notification message. Delivery itself is the caller's
//! business and is best-effort: its failure never terminates a run.
use vstd::prelude::*;
use crate::errors::ErrorKind;

verus! {

/// Index of the last colon in `s`, or -1 if `s` has none.
pub open spec fn last_colon(s: Seq<char>) -> int
    decreases s.len(),
{
    if s.len() == 0 {
        -1
    } else if s[s.len() - 1] == ':' {
        s.len() - 1
    } else {
        last_colon(s.drop_last())
    }
}

proof fn lemma_last_colon_none(s: Seq<char>)
    requires
        forall|j: int| 0 <= j < s.len() ==> s[j] != ':',
    ensures
        last_colon(s) == -1,
    decreases s.len(),
{
    if s.len() == 0 {
    } else {
        assert forall|j: int| 0 <= j < s.drop_last().len() implies s.drop_last()[j] != ':' by {
            assert(s.drop_last()[j] == s[j]);
        }
        lemma_last_colon_none(s.drop_last());
    }
}

proof fn lemma_last_colon_at(s: Seq<char>, k: int)
    requires
        0 <= k < s.len(),
        s[k] == ':',
        forall|j: int| k < j < s.len() ==> s[j] != ':',
    ensures
        last_colon(s) == k,
    decreases s.len(),
{
    if k == s.len() - 1 {
    } else {
        assert(s[s.len() - 1] != ':');
        assert(s.drop_last()[k] == s[k]);
        assert forall|j: int| k < j < s.drop_last().len() implies s.drop_last()[j] != ':' by {
            assert(s.drop_last()[j] == s[j]);
        }
        lemma_last_colon_at(s.drop_last(), k);
    }
}

/// A decimal digit.
pub open spec fn is_digit(c: char) -> bool {
    '0' as int <= c as int && c as int <= '9' as int
}

/// The value of one decimal digit.
pub open spec fn digit_val(c: char) -> int {
    c as int - '0' as int
}

/// The number the decimal digit string `s` denotes.
pub open spec fn digits_val(s: Seq<char>) -> int
    decreases s.len(),
{
    if s.len() == 0 {
        0
    } else {
        digits_val(s.drop_last()) * 10 + digit_val(s.last())
    }
}

/// Whether every character of `s` is a decimal digit.
pub open spec fn all_digits(s: Seq<char>) -> bool {
    forall|i: int| 0 <= i < s.len() ==> is_digit(s[i])
}

/// A well-formed port: non-empty, digits only, and at most 65535.
pub open spec fn valid_port(s: Seq<char>) -> bool {
    s.len() > 0 && all_digits(s) && digits_val(s) <= 65535
}

/// Whether a server value parses: either it has no colon, or the text
/// after its last colon is a well-formed port.
pub open spec fn server_ok(s: Seq<char>) -> bool {
    last_colon(s) == -1 || valid_port(s.skip(last_colon(s) + 1))
}

/// The host part of a server value: everything before the last colon, or
/// the whole value when it has none.
pub open spec fn server_host(s: Seq<char>) -> Seq<char> {
    if last_colon(s) == -1 {
        s
    } else {
        s.take(last_colon(s))
    }
}

/// The port part of a server value; without a colon, the default port for
/// SMTP with implicit TLS.
pub open spec fn server_port(s: Seq<char>) -> int {
    if last_colon(s) == -1 {
        465
    } else {
        digits_val(s.skip(last_colon(s) + 1))
    }
}

proof fn lemma_digits_val_nonneg(s: Seq<char>)
    requires
        all_digits(s),
    ensures
        digits_val(s) >= 0,
    decreases s.len(),
{
    if s.len() == 0 {
    } else {
        assert forall|i: int| 0 <= i < s.drop_last().len() implies is_digit(s.drop_last()[i]) by {
            assert(s.drop_last()[i] == s[i]);
        }
        lemma_digits_val_nonneg(s.drop_last());
    }
}

proof fn lemma_digits_val_prefix(s: Seq<char>, k: int)
    requires
        all_digits(s),
        0 <= k <= s.len(),
    ensures
        digits_val(s) >= digits_val(s.take(k)),
    decreases s.len(),
{
    if k == s.len() {
        assert(s.take(k) =~= s);
    } else {
        assert forall|i: int| 0 <= i < s.drop_last().len() implies is_digit(s.drop_last()[i]) by {
            assert(s.drop_last()[i] == s[i]);
        }
        assert(s.drop_last().take(k) =~= s.take(k));
        lemma_digits_val_prefix(s.drop_last(), k);
        lemma_digits_val_nonneg(s.drop_last());
    }
}

/// SMTP connection target: host and port.
#[derive(Debug)]
pub struct SmtpServer {
    pub host: String,
    pub port: u16,
}

/// Parses the SMTP server value. With a colon, the text after the last
/// colon is the port and the text before it the host; without one, the
/// whole value is the host and the port is 465, the default for SMTP with
/// implicit TLS. An empty or non-numeric port, or one over 65535, is a
/// configuration error.
pub fn parse_server(s: &str) -> (r: Result<SmtpServer, ErrorKind>)
    ensures
        r is Ok <==> server_ok(s@),
        r is Ok ==> r->Ok_0.host@ == server_host(s@) && r->Ok_0.port == server_port(s@),
        r is Err ==> r->Err_0 is Config,
{
    let n = s.unicode_len();
    let mut i: usize = n;
    let mut colon: Option<usize> = None;
    while i > 0
        invariant
            i <= n,
            n == s@.len(),
            match colon {
                Some(k) => k < n && s@[k as int] == ':' && (forall|j: int|
                    k < j < n ==> s@[j] != ':'),
                None => forall|j: int| i <= j < n ==> s@[j] != ':',
            },
        decreases i,
    {
        if colon.is_none() {
            let c = s.get_char(i - 1);
            if c == ':' {
                colon = Some(i - 1);
            }
        }
        i -= 1;
    }
    match colon {
        None => {
            proof {
                lemma_last_colon_none(s@);
            }
            Ok(SmtpServer { host: String::from_str(s), port: 465 })
        },
        Some(k) => {
            proof {
                lemma_last_colon_at(s@, k as int);
            }
            if k + 1 == n {
                proof {
                    assert(s@.skip(k + 1) =~= Seq::<char>::empty());
                }
                return Err(ErrorKind::Config);
            }
            let ghost port_text = s@.skip(k + 1);
            let mut val: u32 = 0;
            let mut p: usize = k + 1;
            while p < n
                invariant
                    k + 1 <= p <= n,
                    n == s@.len(),
                    k < n,
                    s@[k as int] == ':',
                    forall|j: int| k < j < n ==> s@[j] != ':',
                    last_colon(s@) == k,
                    port_text == s@.skip(k + 1),
                    forall|j: int| k + 1 <= j < p ==> is_digit(s@[j]),
                    val == digits_val(s@.subrange(k + 1, p as int)),
                    val <= 65535,
                decreases n - p,
            {
                let c = s.get_char(p);
                let u = c as u32;
                if u < 48 || u > 57 {
                    proof {
                        assert(!is_digit(s@[p as int]));
                        assert(port_text[p - (k + 1)] == s@[p as int]);
                        assert(!all_digits(port_text));
                    }
                    return Err(ErrorKind::Config);
                }
                proof {
                    let t = s@.subrange(k + 1, p + 1);
                    assert(t.drop_last() =~= s@.subrange(k + 1, p as int));
                    assert(t.last() == s@[p as int]);
                }
                val = val * 10 + (u - 48);
                if val > 65535 {
                    proof {
                        assert(!server_ok(s@)) by {
                            if server_ok(s@) {
                                assert(valid_port(port_text));
                                assert(port_text.take(p + 1 - (k + 1)) =~= s@.subrange(
                                    k + 1,
                                    p + 1,
                                ));
                                lemma_digits_val_prefix(port_text, p + 1 - (k + 1));
                            }
                        }
                    }
                    return Err(ErrorKind::Config);
                }
                p += 1;
            }
            proof {
                assert(s@.subrange(k + 1, n as int) =~= port_text);
                assert(valid_port(port_text));
                assert(s@.take(k as int) == server_host(s@));
            }
            let host = s.substring_char(0, k);
            Ok(SmtpServer { host: String::from_str(host), port: val as u16 })
        },
    }
}

/// The changed URLs joined by the fixed HTML line break.
pub open spec fn joined(urls: Seq<Seq<char>>) -> Seq<char>
    decreases urls.len(),
{
    if urls.len() == 0 {
        Seq::empty()
    } else if urls.len() == 1 {
        urls[0]
    } else {
        joined(urls.drop_last()) + "<br>"@ + urls.last()
    }
}

/// The notification body: a fixed heading, then the changed URLs joined
/// by HTML line breaks.
pub open spec fn body_text(urls: Seq<Seq<char>>) -> Seq<char> {
    "网站地址: "@ + joined(urls)
}

/// Composes the HTML body of the notification email listing the changed
/// URLs.
pub fn compose_body(urls: &Vec<String>) -> (r: String)
    ensures
        r@ == body_text(urls.deep_view()),
{
    let ghost us = urls.deep_view();
    let mut r = String::from_str("网站地址: ");
    let mut k: usize = 0;
    proof {
        assert(us.take(0) =~= Seq::<Seq<char>>::empty());
        assert(r@ + joined(us.take(0)) =~= r@);
    }
    while k < urls.len()
        invariant
            k <= urls@.len(),
            us == urls.deep_view(),
            us.len() == urls@.len(),
            r@ == "网站地址: "@ + joined(us.take(k as int)),
        decreases urls@.len() - k,
    {
        proof {
            assert(us[k as int] == urls@[k as int]@);
        }
        if k > 0 {
            r.append("<br>");
        }
        r.append(urls[k].as_str());
        proof {
            let t = us.take(k + 1);
            assert(t.drop_last() =~= us.take(k as int));
            assert(t.last() == us[k as int]);
            if k == 0 {
                assert(t.len() == 1);
                assert(joined(t) == us[0]);
                assert(("网站地址: "@ + joined(us.take(0))) + us[0] =~= "网站地址: "@ + joined(t));
            } else {
                assert(joined(t) == joined(us.take(k as int)) + "<br>"@ + us[k as int]);
                assert((("网站地址: "@ + joined(us.take(k as int))) + "<br>"@) + us[k as int]
                    =~= "网站地址: "@ + joined(t));
            }
        }
        k += 1;
    }
    proof {
        assert(us.take(us.len() as int) =~= us);
    }
    r
}

/// Whether the notifier is to be invoked at all: only when at least one
/// URL changed. With no change there is nothing to send.
pub fn should_notify(changed: &Vec<String>) -> (r: bool)
    ensures
        r == (changed@.len() > 0),
{
    changed.len() > 0
}

/// The fixed subject of the notification email.
pub fn email_subject() -> (r: String)
    ensures
        r@ == "网站更新提醒"@,
{
    String::from_str("网站更新提醒")
}

/// The sender mailbox line: a fixed display name around the username.
pub fn sender_mailbox(username: &str) -> (r: String)
    ensures
        r@ == "web watcher <"@ + username@ + ">"@,
{
    let mut r = String::from_str("web watcher <");
    r.append(username);
    r.append(">");
    proof {
        assert(("web watcher <"@ + username@) + ">"@ =~= "web watcher <"@ + username@ + ">"@);
    }
    r
}

} // verus!
