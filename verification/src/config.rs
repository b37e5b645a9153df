//! Runtime configuration: the filter lists and the label filter parser.

use vstd::prelude::*;
use vstd::string::StrSliceExecFns;

use crate::strmap::StrMap;
use crate::text::chars_of;

verus! {

/// Label filters: label key to an optional required value.
pub type ContainerLabels = StrMap<Option<String>>;

/// Name filters.
pub type ContainerNames = Vec<String>;

/// Scrubbing of container environments is off unless asked for.
pub fn default_scrub() -> (b: bool)
    ensures
        b == false,
{
    false
}

/// The port the proxy listens on unless configured otherwise.
pub fn default_port() -> (p: u16)
    ensures
        p == 2375,
{
    2375
}

/// Filter lists are empty unless configured.
pub fn default_list() -> (v: Vec<String>)
    ensures
        v@.len() == 0,
{
    Vec::new()
}

/// The settings as read from the environment.
#[derive(Clone, Debug)]
pub struct EnvConfig {
    pub proxy_url: String,
    pub container_names: Vec<String>,
    pub container_labels: Vec<String>,
    pub exclude_names: Vec<String>,
    pub exclude_labels: Vec<String>,
    pub scrub_envs: bool,
    pub port: u16,
}

/// The settings the proxy works with, label filters parsed into maps.
pub struct AppConfig {
    pub proxy_url: String,
    pub container_names: ContainerNames,
    pub container_labels: ContainerLabels,
    pub exclude_names: ContainerNames,
    pub exclude_labels: ContainerLabels,
    pub scrub_envs: bool,
}

/// `s` split at the first occurrence of `c`: the text before it and the text after it.
pub open spec fn split_first(s: Seq<char>, c: char) -> Option<(Seq<char>, Seq<char>)> {
    if exists|i: int| 0 <= i < s.len() && s[i] == c {
        let i = choose|i: int| 0 <= i < s.len() && s[i] == c && forall|j: int| 0 <= j < i ==> s[j] != c;
        Some((s.subrange(0, i), s.subrange(i + 1, s.len() as int)))
    } else {
        None
    }
}

/// A label filter `key=value` requires that value; a bare `key` requires only the key.
pub open spec fn label_filter_of(s: Seq<char>) -> (Seq<char>, Option<Seq<char>>) {
    match split_first(s, '=') {
        Some((k, v)) => (k, Some(v)),
        None => (s, None),
    }
}

/// The label filter map of a list of filters; a later filter for the same key replaces an earlier one.
pub open spec fn label_filters_of(labels: Seq<Seq<char>>) -> Map<Seq<char>, Option<Seq<char>>>
    decreases labels.len(),
{
    if labels.len() == 0 {
        Map::empty()
    } else {
        let (k, v) = label_filter_of(labels.last());
        label_filters_of(labels.drop_last()).insert(k, v)
    }
}

/// A filter written `key=value`, whose key has no `=`, requires that key and value;
/// a filter without `=` requires only its key.
pub proof fn lemma_label_filter_forms(k: Seq<char>, v: Seq<char>)
    requires
        forall|i: int| 0 <= i < k.len() ==> k[i] != '=',
    ensures
        label_filter_of(k + seq!['='] + v) == (k, Some(v)),
        label_filter_of(k) == (k, None::<Seq<char>>),
{
    let s = k + seq!['='] + v;
    let n = k.len() as int;
    assert(0 <= n < s.len() && s[n] == '=' && forall|j: int| 0 <= j < n ==> s[j] != '=');
    let i = choose|i: int| 0 <= i < s.len() && s[i] == '=' && forall|j: int| 0 <= j < i ==> s[j] != '=';
    if i < n {
        assert(s[i] == k[i]);
    } else if i > n {
        assert(s[n] != '=');
    }
    assert(s.subrange(0, n) =~= k);
    assert(s.subrange(n + 1, s.len() as int) =~= v);
}

/// Splits `s` at the first occurrence of `c`, as `str::split_once` with a char pattern.
pub fn split_once_char(s: &str, c: char) -> (r: Option<(String, String)>)
    ensures
        match r {
            Some((a, b)) => split_first(s@, c) == Some((a@, b@)),
            None => split_first(s@, c) is None,
        },
{
    let cs = chars_of(s);
    let mut i: usize = 0;
    while i < cs.len()
        invariant
            cs@ == s@,
            i <= cs@.len(),
            forall|j: int| 0 <= j < i ==> s@[j] != c,
        decreases cs@.len() - i,
    {
        if cs[i] == c {
            proof {
                let w = choose|w: int| 0 <= w < s@.len() && s@[w] == c && forall|j: int| 0 <= j < w ==> s@[j] != c;
                assert(0 <= i < s@.len() && s@[i as int] == c && forall|j: int| 0 <= j < i ==> s@[j] != c);
                if w < i {
                    assert(s@[w] != c);
                } else if w > i {
                    assert(s@[i as int] != c);
                }
            }
            let before = s.substring_char(0, i).to_owned();
            let after = s.substring_char(i + 1, cs.len()).to_owned();
            return Some((before, after));
        }
        i += 1;
    }
    None
}

/// Parses label filters of the form `key` or `key=value` into a map.
pub fn parse_label_list(labels: &[String]) -> (m: ContainerLabels)
    ensures
        m@ == label_filters_of(labels@.map_values(|s: String| s@)),
{
    let ghost views = labels@.map_values(|s: String| s@);
    let mut label_map: ContainerLabels = StrMap::new();
    let mut i: usize = 0;
    while i < labels.len()
        invariant
            i <= labels@.len(),
            views == labels@.map_values(|s: String| s@),
            label_map@ == label_filters_of(views.take(i as int)),
        decreases labels@.len() - i,
    {
        let label_kv = &labels[i];
        proof {
            assert(views.take(i + 1).drop_last() =~= views.take(i as int));
            assert(views.take(i + 1).last() == label_kv@);
        }
        match split_once_char(label_kv.as_str(), '=') {
            Some((k, v)) => {
                label_map.insert(k, Some(v));
            },
            None => {
                label_map.insert(label_kv.clone(), None);
            },
        }
        i += 1;
    }
    assert(views.take(labels@.len() as int) =~= views);
    label_map
}

impl AppConfig {
    /// No include and no exclude filter is set, so every container is exposed.
    pub fn has_no_filters(&self) -> (b: bool)
        ensures
            b == (self.container_labels@.is_empty() && self.container_names@.len() == 0
                && self.exclude_labels@.is_empty() && self.exclude_names@.len() == 0),
    {
        self.container_labels.is_empty() && self.container_names.len() == 0 && self.exclude_labels.is_empty()
            && self.exclude_names.len() == 0
    }

    /// Some exclude filter is set.
    pub fn has_exclude_filters(&self) -> (b: bool)
        ensures
            b == !(self.exclude_labels@.is_empty() && self.exclude_names@.len() == 0),
    {
        !self.exclude_labels.is_empty() || self.exclude_names.len() != 0
    }

    /// Builds the working configuration: lists copied, label filters parsed.
    pub fn from_env(item: &EnvConfig) -> (c: AppConfig)
        ensures
            c.proxy_url@ == item.proxy_url@,
            c.container_names.deep_view() == item.container_names.deep_view(),
            c.container_labels@ == label_filters_of(item.container_labels@.map_values(|s: String| s@)),
            c.exclude_names.deep_view() == item.exclude_names.deep_view(),
            c.exclude_labels@ == label_filters_of(item.exclude_labels@.map_values(|s: String| s@)),
            c.scrub_envs == item.scrub_envs,
    {
        AppConfig {
            proxy_url: item.proxy_url.clone(),
            container_names: item.container_names.clone(),
            container_labels: parse_label_list(item.container_labels.as_slice()),
            exclude_names: item.exclude_names.clone(),
            exclude_labels: parse_label_list(item.exclude_labels.as_slice()),
            scrub_envs: item.scrub_envs,
        }
    }
}

/// The port of the internal HTTP handler: the one after the listening port, when
/// there is one.
pub fn internal_port(port: u16) -> (p: Option<u16>)
    ensures
        p == (if port < 65535 {
            Some((port + 1) as u16)
        } else {
            None::<u16>
        }),
{
    if port < 65535 {
        Some(port + 1)
    } else {
        None
    }
}

/// The decimal digit character for `d` (below ten).
pub open spec fn digit_char(d: nat) -> char {
    if d == 0 {
        '0'
    } else if d == 1 {
        '1'
    } else if d == 2 {
        '2'
    } else if d == 3 {
        '3'
    } else if d == 4 {
        '4'
    } else if d == 5 {
        '5'
    } else if d == 6 {
        '6'
    } else if d == 7 {
        '7'
    } else if d == 8 {
        '8'
    } else {
        '9'
    }
}

/// The decimal notation of `n`, without leading zeros.
pub open spec fn decimal(n: nat) -> Seq<char>
    decreases n,
{
    if n < 10 {
        seq![digit_char(n)]
    } else {
        decimal(n / 10).push(digit_char(n % 10))
    }
}

/// The number a string of decimal digits denotes, most significant digit first.
pub open spec fn digits_value(s: Seq<char>) -> int
    decreases s.len(),
{
    if s.len() == 0 {
        0
    } else {
        digits_value(s.drop_last()) * 10 + (s.last() as u32 - 48)
    }
}

/// The digit character for `d` is the character `'0' + d`.
pub proof fn lemma_digit_char_code(d: nat)
    requires
        d < 10,
    ensures
        digit_char(d) as u32 == 48 + d,
{
}

/// `decimal(n)` is the standard base-ten notation of `n`: non-empty, made of the
/// characters `'0'` to `'9'`, without a leading zero unless `n` is zero, and it
/// reads back as `n`.
pub proof fn lemma_decimal_reads_back(n: nat)
    ensures
        decimal(n).len() >= 1,
        forall|i: int| 0 <= i < decimal(n).len() ==> 48 <= #[trigger] decimal(n)[i] as u32 <= 57,
        n > 0 ==> decimal(n)[0] != '0',
        digits_value(decimal(n)) == n,
    decreases n,
{
    if n < 10 {
        lemma_digit_char_code(n);
        let s = decimal(n);
        assert(s.drop_last() =~= Seq::<char>::empty());
        assert(digits_value(s.drop_last()) == 0);
    } else {
        lemma_decimal_reads_back(n / 10);
        lemma_digit_char_code(n % 10);
        let s = decimal(n);
        let t = decimal(n / 10);
        assert(s == t.push(digit_char(n % 10)));
        assert(s.drop_last() =~= t);
        assert forall|i: int| 0 <= i < s.len() implies 48 <= #[trigger] s[i] as u32 <= 57 by {
            if i < t.len() {
                assert(s[i] == t[i]);
            }
        }
        assert(s[0] == t[0]);
        if n / 10 == 0 {
            assert(false);
        }
        assert(digits_value(s) == digits_value(t) * 10 + (n % 10));
        assert((n / 10) * 10 + n % 10 == n);
    }
}

/// The one-character text of digit `d`.
fn digit_str(d: u16) -> (s: &'static str)
    requires
        d < 10,
    ensures
        s@ == seq![digit_char(d as nat)],
{
    if d == 0 {
        proof { reveal_strlit("0"); }
        "0"
    } else if d == 1 {
        proof { reveal_strlit("1"); }
        "1"
    } else if d == 2 {
        proof { reveal_strlit("2"); }
        "2"
    } else if d == 3 {
        proof { reveal_strlit("3"); }
        "3"
    } else if d == 4 {
        proof { reveal_strlit("4"); }
        "4"
    } else if d == 5 {
        proof { reveal_strlit("5"); }
        "5"
    } else if d == 6 {
        proof { reveal_strlit("6"); }
        "6"
    } else if d == 7 {
        proof { reveal_strlit("7"); }
        "7"
    } else if d == 8 {
        proof { reveal_strlit("8"); }
        "8"
    } else {
        proof { reveal_strlit("9"); }
        "9"
    }
}

/// Appends the decimal notation of `n` to `s`.
fn append_decimal(s: &mut String, n: u16)
    ensures
        final(s)@ == old(s)@ + decimal(n as nat),
    decreases n,
{
    if n >= 10 {
        append_decimal(s, n / 10);
    }
    s.append(digit_str(n % 10));
    proof {
        if n >= 10 {
            assert(decimal(n as nat) == decimal((n / 10) as nat).push(digit_char((n % 10) as nat)));
        }
    }
}

/// The address `host:port`.
pub fn host_port(host: &str, port: u16) -> (a: String)
    ensures
        a@ == host@ + ":"@ + decimal(port as nat),
{
    let mut a = host.to_owned();
    a.append(":");
    append_decimal(&mut a, port);
    a
}

/// The address of the upstream proxy from the host and port of its URL, falling
/// back to host `socket-proxy` and port 2375.
pub fn upstream_address(host: Option<&str>, port: Option<u16>) -> (a: String)
    ensures
        a@ == (match host {
            Some(h) => h@,
            None => "socket-proxy"@,
        }) + ":"@ + decimal(
            match port {
                Some(p) => p as nat,
                None => 2375,
            },
        ),
{
    let h = match host {
        Some(h) => h,
        None => "socket-proxy",
    };
    let p = match port {
        Some(p) => p,
        None => 2375,
    };
    host_port(h, p)
}

} // verus!
