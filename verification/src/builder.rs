//! The client builder: connection-string parsing and client assembly.
//!
//! A full user name comes in one of two shapes: the standard
//! `user@tenant#cluster`, or the legacy `cluster<sep>tenant<sep>user`
//! where the separator is one of `:`, `-`, `.` and its first and last
//! occurrences differ. The parameter URL must carry a non-empty
//! `database` parameter in its query string. Malformed names and URLs
//! are excluded by precondition, so the builder never panics; the
//! parsers underneath are total and report them as `None`.

use vstd::prelude::*;

use crate::client::{ClientConfig, ClientIdentity, ObTableClient, RunningMode};
use crate::error::Error;
use crate::strutil::string_eq;

verus! {

/// The first position of `c` in `s`.
pub open spec fn spec_first_idx(s: Seq<char>, c: char) -> Option<int>
    decreases s.len(),
{
    if s.len() == 0 {
        None
    } else if s[0] == c {
        Some(0int)
    } else {
        match spec_first_idx(s.skip(1), c) {
            Option::None => None,
            Option::Some(i) => Some(1 + i),
        }
    }
}

/// The last position of `c` in `s`.
pub open spec fn spec_last_idx(s: Seq<char>, c: char) -> Option<int>
    decreases s.len(),
{
    if s.len() == 0 {
        None
    } else if s.last() == c {
        Some(s.len() - 1)
    } else {
        spec_last_idx(s.drop_last(), c)
    }
}

/// A found first position is in range, holds `c`, and nothing before it
/// does.
pub proof fn lemma_first_idx_valid(s: Seq<char>, c: char)
    ensures
        spec_first_idx(s, c) matches Some(i) ==> 0 <= i < s.len() && s[i] == c && (forall|j: int|
            0 <= j < i ==> s[j] != c),
        spec_first_idx(s, c) is None ==> forall|j: int| 0 <= j < s.len() ==> s[j] != c,
    decreases s.len(),
{
    if s.len() > 0 {
        lemma_first_idx_valid(s.skip(1), c);
        if s[0] != c {
            assert forall|j: int| 1 <= j < s.len() implies s[j] == s.skip(1)[j - 1] by {}
        }
    }
}

/// Finds the first position of `c` in `s` at or after `from`.
fn find_char_from(s: &str, c: char, from: usize, len: usize) -> (r: Option<usize>)
    requires
        from <= len,
        len == s@.len(),
    ensures
        match r {
            Some(i) => from <= i < s@.len() && spec_first_idx(s@.skip(from as int), c) == Some(
                i - from,
            ),
            None => spec_first_idx(s@.skip(from as int), c) is None,
        },
{
    let mut i: usize = from;
    proof {
        assert(s@.skip(from as int).skip(0) =~= s@.skip(from as int));
    }
    while i < len
        invariant
            from <= i <= len,
            len == s@.len(),
            spec_first_idx(s@.skip(from as int), c) == match spec_first_idx(
                s@.skip(i as int),
                c,
            ) {
                Option::None => Option::<int>::None,
                Option::Some(k) => Option::Some(i - from + k),
            },
        decreases len - i,
    {
        proof {
            assert(s@.skip(i as int)[0] == s@[i as int]);
        }
        if s.get_char(i) == c {
            return Some(i);
        }
        proof {
            assert(s@.skip(i as int).skip(1) =~= s@.skip(i as int + 1));
        }
        i = i + 1;
    }
    proof {
        assert(s@.skip(i as int).len() == 0);
    }
    None
}

/// Finds the last position of `c` in `s`.
fn rfind_char(s: &str, c: char, len: usize) -> (r: Option<usize>)
    requires
        len == s@.len(),
    ensures
        match r {
            Some(i) => i < s@.len() && spec_last_idx(s@, c) == Some(i as int),
            None => spec_last_idx(s@, c) is None,
        },
{
    let mut i: usize = len;
    proof {
        assert(s@.subrange(0, len as int) =~= s@);
    }
    while i > 0
        invariant
            i <= len,
            len == s@.len(),
            spec_last_idx(s@, c) == spec_last_idx(s@.subrange(0, i as int), c),
        decreases i,
    {
        i = i - 1;
        proof {
            let pre = s@.subrange(0, i as int);
            let post = s@.subrange(0, i as int + 1);
            assert(post.drop_last() =~= pre);
            assert(post.last() == s@[i as int]);
        }
        if s.get_char(i) == c {
            return Some(i);
        }
    }
    proof {
        assert(s@.subrange(0, 0).len() == 0);
    }
    None
}

/// The `(first, last)` separator positions after considering one
/// separator: each position is updated only when the separator occurs.
pub open spec fn spec_sep_step(s: Seq<char>, sep: char, u0: int, t0: int) -> (int, int) {
    (
        match spec_first_idx(s, sep) {
            Option::Some(i) => i,
            Option::None => u0,
        },
        match spec_last_idx(s, sep) {
            Option::Some(i) => i,
            Option::None => t0,
        },
    )
}

/// The separator positions of a legacy full user name: the separators
/// `:`, `-`, `.` are tried in order, and the first one whose first and
/// last occurrences differ wins.
pub open spec fn spec_legacy_indexes(s: Seq<char>) -> (int, int) {
    let p1 = spec_sep_step(s, ':', -1, -1);
    if p1.0 != p1.1 {
        p1
    } else {
        let p2 = spec_sep_step(s, '-', p1.0, p1.1);
        if p2.0 != p2.1 {
            p2
        } else {
            spec_sep_step(s, '.', p2.0, p2.1)
        }
    }
}

/// A legacy full user name is well formed when its separator positions
/// exist, differ, and leave all three parts non-empty.
pub open spec fn spec_legacy_valid(s: Seq<char>) -> bool {
    let (u, t) = spec_legacy_indexes(s);
    &&& 1 <= u
    &&& u + 1 < t
    &&& t < s.len() - 1
}

/// A standard full user name `user@tenant#cluster` is well formed when
/// `@` comes before `#` and all three parts are non-empty.
pub open spec fn spec_standard_valid(s: Seq<char>) -> bool {
    &&& spec_first_idx(s, '@') matches Some(u) && ({
        &&& 1 <= u
        &&& spec_first_idx(s, '#') matches Some(t) && u + 1 < t < s.len() - 1
    })
}

/// A name is parsed as standard exactly when it contains `@` or `#`.
pub open spec fn spec_is_standard(s: Seq<char>) -> bool {
    spec_first_idx(s, '@') is Some || spec_first_idx(s, '#') is Some
}

/// A full user name the builder accepts.
pub open spec fn spec_full_user_name_valid(s: Seq<char>) -> bool {
    if spec_is_standard(s) {
        spec_standard_valid(s)
    } else {
        spec_legacy_valid(s)
    }
}

/// The lowercase form of `k` spells `database`.
pub open spec fn spec_is_database_key(k: Seq<char>) -> bool {
    &&& k.len() == 8
    &&& (k[0] == 'd' || k[0] == 'D')
    &&& (k[1] == 'a' || k[1] == 'A')
    &&& (k[2] == 't' || k[2] == 'T')
    &&& (k[3] == 'a' || k[3] == 'A')
    &&& (k[4] == 'b' || k[4] == 'B')
    &&& (k[5] == 'a' || k[5] == 'A')
    &&& (k[6] == 's' || k[6] == 'S')
    &&& (k[7] == 'e' || k[7] == 'E')
}

/// Every `&`-separated parameter of `s` carries exactly one `=`.
pub open spec fn spec_params_valid(s: Seq<char>) -> bool
    decreases s.len(),
    via spec_params_valid_decreases
{
    match spec_first_idx(s, '&') {
        Option::Some(i) => spec_param_shape_ok(s.subrange(0, i)) && spec_params_valid(
            s.skip(i + 1),
        ),
        Option::None => spec_param_shape_ok(s),
    }
}

/// One parameter carries exactly one `=`.
pub open spec fn spec_param_shape_ok(p: Seq<char>) -> bool {
    spec_first_idx(p, '=') matches Some(j) && spec_first_idx(p.skip(j + 1), '=') is None
}

/// The value carried by one parameter when its key is `database`
/// (ignoring ASCII case), if so.
pub open spec fn spec_param_db_value(p: Seq<char>) -> Option<Seq<char>> {
    match spec_first_idx(p, '=') {
        Option::Some(j) => if spec_is_database_key(p.subrange(0, j)) {
            Some(p.skip(j + 1))
        } else {
            None
        },
        Option::None => None,
    }
}

#[via_fn]
proof fn spec_params_valid_decreases(s: Seq<char>) {
    lemma_first_idx_valid(s, '&');
}

/// The `database` value of a parameter list; the last occurrence wins.
pub open spec fn spec_db_of_params(s: Seq<char>) -> Option<Seq<char>>
    decreases s.len(),
    via spec_db_of_params_decreases
{
    match spec_first_idx(s, '&') {
        Option::Some(i) => {
            let cur = spec_param_db_value(s.subrange(0, i));
            match spec_db_of_params(s.skip(i + 1)) {
                Option::Some(v) => Some(v),
                Option::None => cur,
            }
        },
        Option::None => spec_param_db_value(s),
    }
}

#[via_fn]
proof fn spec_db_of_params_decreases(s: Seq<char>) {
    lemma_first_idx_valid(s, '&');
}

/// The database name a parameter URL carries: the part after `?` must be
/// a well-formed parameter list whose `database` value is non-empty.
pub open spec fn spec_url_database(u: Seq<char>) -> Option<Seq<char>> {
    match spec_first_idx(u, '?') {
        Option::Some(q) => {
            if q + 1 == u.len() {
                None
            } else {
                let params = u.skip(q + 1);
                if spec_params_valid(params) {
                    match spec_db_of_params(params) {
                        Option::Some(d) => if d.len() > 0 {
                            Some(d)
                        } else {
                            None
                        },
                        Option::None => None,
                    }
                } else {
                    None
                }
            }
        },
        Option::None => None,
    }
}

/// A parameter URL the builder accepts.
pub open spec fn spec_param_url_valid(u: Seq<char>) -> bool {
    spec_url_database(u) is Some
}

/// Finds the first position of `c` in `s` within `[from, to)`.
fn find_char_in(s: &str, c: char, from: usize, to: usize, len: usize) -> (r: Option<usize>)
    requires
        from <= to <= len,
        len == s@.len(),
    ensures
        match r {
            Some(i) => from <= i < to && spec_first_idx(s@.subrange(from as int, to as int), c)
                == Some(i - from),
            None => spec_first_idx(s@.subrange(from as int, to as int), c) is None,
        },
{
    let ghost region = s@.subrange(from as int, to as int);
    let mut i: usize = from;
    proof {
        assert(region.skip(0) =~= region);
    }
    while i < to
        invariant
            from <= i <= to <= len,
            len == s@.len(),
            region == s@.subrange(from as int, to as int),
            spec_first_idx(region, c) == match spec_first_idx(
                region.skip(i - from),
                c,
            ) {
                Option::None => Option::<int>::None,
                Option::Some(k) => Option::Some(i - from + k),
            },
        decreases to - i,
    {
        proof {
            assert(region.skip(i - from)[0] == region[i - from]);
            assert(region[i - from] == s@[i as int]);
        }
        if s.get_char(i) == c {
            return Some(i);
        }
        proof {
            assert(region.skip(i - from).skip(1) =~= region.skip(i + 1 - from));
        }
        i = i + 1;
    }
    proof {
        assert(region.skip(i - from).len() == 0);
    }
    None
}

/// Tests whether the characters of `[p, e0)` spell `database`, ignoring
/// ASCII case.
fn is_database_key(s: &str, p: usize, e0: usize, len: usize) -> (r: bool)
    requires
        p <= e0 <= len,
        len == s@.len(),
    ensures
        r == spec_is_database_key(s@.subrange(p as int, e0 as int)),
{
    let ghost key = s@.subrange(p as int, e0 as int);
    if e0 - p != 8 {
        return false;
    }
    proof {
        assert(key[0] == s@[p as int]);
        assert(key[1] == s@[p as int + 1]);
        assert(key[2] == s@[p as int + 2]);
        assert(key[3] == s@[p as int + 3]);
        assert(key[4] == s@[p as int + 4]);
        assert(key[5] == s@[p as int + 5]);
        assert(key[6] == s@[p as int + 6]);
        assert(key[7] == s@[p as int + 7]);
    }
    let c0 = s.get_char(p);
    let c1 = s.get_char(p + 1);
    let c2 = s.get_char(p + 2);
    let c3 = s.get_char(p + 3);
    let c4 = s.get_char(p + 4);
    let c5 = s.get_char(p + 5);
    let c6 = s.get_char(p + 6);
    let c7 = s.get_char(p + 7);
    (c0 == 'd' || c0 == 'D') && (c1 == 'a' || c1 == 'A') && (c2 == 't' || c2 == 'T') && (c3 == 'a'
        || c3 == 'A') && (c4 == 'b' || c4 == 'B') && (c5 == 'a' || c5 == 'A') && (c6 == 's' || c6
        == 'S') && (c7 == 'e' || c7 == 'E')
}

/// Reads one parameter `[p, pe)`: reports a malformed shape, or the
/// `database` value it carries, if any.
fn param_db_value(s: &str, p: usize, pe: usize, len: usize) -> (r: Result<Option<String>, ()>)
    requires
        p <= pe <= len,
        len == s@.len(),
    ensures
        ({
            let param = s@.subrange(p as int, pe as int);
            match r {
                Err(_) => !spec_param_shape_ok(param),
                Ok(o) => spec_param_shape_ok(param) && match o {
                    Some(d) => spec_param_db_value(param) == Some(d@),
                    None => spec_param_db_value(param) is None,
                },
            }
        }),
{
    let ghost param = s@.subrange(p as int, pe as int);
    let e0 = match find_char_in(s, '=', p, pe, len) {
        Some(e0) => e0,
        None => {
            return Err(());
        },
    };
    proof {
        assert(param.skip(e0 - p + 1) =~= s@.subrange(e0 as int + 1, pe as int));
    }
    match find_char_in(s, '=', e0 + 1, pe, len) {
        Some(_) => Err(()),
        None => {
            if is_database_key(s, p, e0, len) {
                proof {
                    assert(param.subrange(0, e0 - p) =~= s@.subrange(p as int, e0 as int));
                }
                let value = s.substring_char(e0 + 1, pe).to_owned();
                Ok(Some(value))
            } else {
                proof {
                    assert(param.subrange(0, e0 - p) =~= s@.subrange(p as int, e0 as int));
                }
                Ok(None)
            }
        },
    }
}

/// Extracts the `database` parameter of a URL's query string, when the
/// URL is well formed; the last occurrence wins.
pub fn find_database(url: &str) -> (r: Option<String>)
    ensures
        match r {
            Some(d) => spec_url_database(url@) == Some(d@),
            None => spec_url_database(url@) is None,
        },
{
    let len = url.unicode_len();
    let q = match find_char_from(url, '?', 0, len) {
        Some(q) => q,
        None => {
            proof {
                assert(url@.skip(0) =~= url@);
            }
            return None;
        },
    };
    proof {
        assert(url@.skip(0) =~= url@);
    }
    if q + 1 == len {
        return None;
    }
    let ghost params = url@.skip(q as int + 1);
    let mut p: usize = q + 1;
    let mut acc: Option<String> = None;
    let ghost mut gacc: Option<Seq<char>> = None;
    loop
        invariant
            q + 1 <= p <= len,
            len == url@.len(),
            params == url@.skip(q as int + 1),
            spec_first_idx(url@, '?') == Some(q as int),
            q as int + 1 < url@.len(),
            gacc == (match acc {
                Option::Some(a) => Option::Some(a@),
                Option::None => Option::<Seq<char>>::None,
            }),
            spec_params_valid(params) == spec_params_valid(url@.skip(p as int)),
            spec_db_of_params(params) == (match spec_db_of_params(url@.skip(p as int)) {
                Option::Some(v) => Option::Some(v),
                Option::None => gacc,
            }),
        decreases len - p,
    {
        let ghost remaining = url@.skip(p as int);
        match find_char_from(url, '&', p, len) {
            Some(a) => {
                proof {
                    assert(remaining.subrange(0, a - p) =~= url@.subrange(p as int, a as int));
                    assert(remaining.skip(a - p + 1) =~= url@.skip(a as int + 1));
                }
                match param_db_value(url, p, a, len) {
                    Err(_) => {
                        return None;
                    },
                    Ok(o) => {
                        if let Some(d) = o {
                            proof {
                                gacc = Some(d@);
                            }
                            acc = Some(d);
                        }
                    },
                }
                p = a + 1;
            },
            None => {
                proof {
                    assert(remaining.subrange(0, remaining.len() as int) =~= url@.subrange(
                        p as int,
                        len as int,
                    ));
                    assert(remaining =~= url@.subrange(p as int, len as int));
                }
                match param_db_value(url, p, len, len) {
                    Err(_) => {
                        return None;
                    },
                    Ok(o) => {
                        let result = match o {
                            Some(d) => Some(d),
                            None => acc,
                        };
                        match result {
                            Some(d) => {
                                let dl = d.as_str().unicode_len();
                                if dl > 0 {
                                    return Some(d);
                                }
                                return None;
                            },
                            None => {
                                return None;
                            },
                        }
                    },
                }
            },
        }
    }
}

/// Parses a standard full user name into `(user, tenant, cluster)`;
/// nothing when the name is not a well-formed `user@tenant#cluster`.
pub fn parse_standard_full_user_name(name: &str) -> (r: Option<(String, String, String)>)
    ensures
        match r {
            Some(parts) => spec_standard_valid(name@) && ({
                let u = spec_first_idx(name@, '@')->Some_0;
                let t = spec_first_idx(name@, '#')->Some_0;
                &&& parts.0@ == name@.subrange(0, u)
                &&& parts.1@ == name@.subrange(u + 1, t)
                &&& parts.2@ == name@.subrange(t + 1, name@.len() as int)
            }),
            None => !spec_standard_valid(name@),
        },
{
    let len = name.unicode_len();
    proof {
        assert(name@.skip(0) =~= name@);
    }
    let u = match find_char_from(name, '@', 0, len) {
        Some(u) => u,
        None => {
            return None;
        },
    };
    let t = match find_char_from(name, '#', 0, len) {
        Some(t) => t,
        None => {
            return None;
        },
    };
    if u < 1 || u + 1 >= t || t + 1 >= len {
        return None;
    }
    let user = name.substring_char(0, u).to_owned();
    let tenant = name.substring_char(u + 1, t).to_owned();
    let cluster = name.substring_char(t + 1, len).to_owned();
    Some((user, tenant, cluster))
}

/// Parses a legacy full user name into `(cluster, tenant, user)`;
/// nothing when no separator splits the name into three non-empty parts.
pub fn parse_non_standard_full_user_name(name: &str) -> (r: Option<(String, String, String)>)
    ensures
        match r {
            Some(parts) => spec_legacy_valid(name@) && ({
                let (u, t) = spec_legacy_indexes(name@);
                &&& parts.0@ == name@.subrange(0, u)
                &&& parts.1@ == name@.subrange(u + 1, t)
                &&& parts.2@ == name@.subrange(t + 1, name@.len() as int)
            }),
            None => !spec_legacy_valid(name@),
        },
{
    let len = name.unicode_len();
    proof {
        assert(name@.skip(0) =~= name@);
    }
    let mut ut: i128 = -1;
    let mut tc: i128 = -1;
    if let Some(i) = find_char_from(name, ':', 0, len) {
        ut = i as i128;
    }
    if let Some(i) = rfind_char(name, ':', len) {
        tc = i as i128;
    }
    if ut == tc {
        if let Some(i) = find_char_from(name, '-', 0, len) {
            ut = i as i128;
        }
        if let Some(i) = rfind_char(name, '-', len) {
            tc = i as i128;
        }
        if ut == tc {
            if let Some(i) = find_char_from(name, '.', 0, len) {
                ut = i as i128;
            }
            if let Some(i) = rfind_char(name, '.', len) {
                tc = i as i128;
            }
        }
    }
    proof {
        assert((ut as int, tc as int) == spec_legacy_indexes(name@));
    }
    if ut < 1 || ut + 1 >= tc || tc >= (len as i128) - 1 {
        return None;
    }
    let ui = ut as usize;
    let ti = tc as usize;
    let cluster = name.substring_char(0, ui).to_owned();
    let tenant = name.substring_char(ui + 1, ti).to_owned();
    let user = name.substring_char(ti + 1, len).to_owned();
    Some((cluster, tenant, user))
}

/// Builds an `ObTableClient` from a connection string, credentials and
/// configuration.
#[derive(Debug)]
pub struct Builder {
    pub full_user_name: String,
    pub param_url: String,
    pub password: String,
    pub user_name: String,
    pub tenant_name: String,
    pub cluster_name: String,
    pub database: String,
    pub running_mode: RunningMode,
    pub config: ClientConfig,
}

impl Builder {
    /// A builder with everything blank, `Normal` mode and default
    /// configuration.
    pub fn new() -> (b: Builder)
        ensures
            b.full_user_name@.len() == 0,
            b.param_url@.len() == 0,
            b.password@.len() == 0,
            b.user_name@.len() == 0,
            b.tenant_name@.len() == 0,
            b.cluster_name@.len() == 0,
            b.database@.len() == 0,
            b.running_mode is Normal,
    {
        Builder {
            full_user_name: String::new(),
            param_url: String::new(),
            password: String::new(),
            user_name: String::new(),
            tenant_name: String::new(),
            cluster_name: String::new(),
            database: String::new(),
            running_mode: RunningMode::Normal,
            config: ClientConfig::default(),
        }
    }

    /// Sets the running mode.
    pub fn running_mode(self, mode: RunningMode) -> (b: Self)
        ensures
            b.running_mode == mode,
            b.full_user_name == self.full_user_name,
            b.param_url == self.param_url,
            b.database == self.database,
            b.user_name == self.user_name,
            b.tenant_name == self.tenant_name,
            b.cluster_name == self.cluster_name,
            b.password == self.password,
    {
        let mut b = self;
        b.running_mode = mode;
        b
    }

    /// Sets and parses the full user name. The name must be a well-formed
    /// standard or legacy full user name; its user, tenant and cluster
    /// parts are recorded.
    pub fn full_user_name(self, name: &String) -> (b: Self)
        requires
            name@.len() > 0,
            spec_full_user_name_valid(name@),
        ensures
            b.full_user_name@ == name@,
            spec_is_standard(name@) ==> ({
                let u = spec_first_idx(name@, '@')->Some_0;
                let t = spec_first_idx(name@, '#')->Some_0;
                &&& b.user_name@ == name@.subrange(0, u)
                &&& b.tenant_name@ == name@.subrange(u + 1, t)
                &&& b.cluster_name@ == name@.subrange(t + 1, name@.len() as int)
            }),
            !spec_is_standard(name@) ==> ({
                let (u, t) = spec_legacy_indexes(name@);
                &&& b.cluster_name@ == name@.subrange(0, u)
                &&& b.tenant_name@ == name@.subrange(u + 1, t)
                &&& b.user_name@ == name@.subrange(t + 1, name@.len() as int)
            }),
            b.param_url == self.param_url,
            b.database == self.database,
            b.password == self.password,
            b.running_mode == self.running_mode,
    {
        let len = name.as_str().unicode_len();
        proof {
            assert(name@.skip(0) =~= name@);
        }
        let has_at = find_char_from(name.as_str(), '@', 0, len).is_some();
        let has_hash = find_char_from(name.as_str(), '#', 0, len).is_some();
        let mut b = self;
        if has_at || has_hash {
            match parse_standard_full_user_name(name.as_str()) {
                Some(parts) => {
                    b.user_name = parts.0;
                    b.tenant_name = parts.1;
                    b.cluster_name = parts.2;
                },
                None => {
                    proof {
                        assert(false);
                    }
                },
            }
        } else {
            match parse_non_standard_full_user_name(name.as_str()) {
                Some(parts) => {
                    b.cluster_name = parts.0;
                    b.tenant_name = parts.1;
                    b.user_name = parts.2;
                },
                None => {
                    proof {
                        assert(false);
                    }
                },
            }
        }
        b.full_user_name = name.clone();
        b
    }

    /// Sets the login password.
    pub fn password(self, pwd: &String) -> (b: Self)
        ensures
            b.password@ == pwd@,
            b.full_user_name == self.full_user_name,
            b.param_url == self.param_url,
            b.database == self.database,
            b.user_name == self.user_name,
            b.tenant_name == self.tenant_name,
            b.cluster_name == self.cluster_name,
            b.running_mode == self.running_mode,
    {
        let mut b = self;
        b.password = pwd.clone();
        b
    }

    /// Replaces the configuration.
    pub fn config(self, config: ClientConfig) -> (b: Self)
        ensures
            b.config == config,
            b.full_user_name == self.full_user_name,
            b.param_url == self.param_url,
            b.database == self.database,
            b.user_name == self.user_name,
            b.tenant_name == self.tenant_name,
            b.cluster_name == self.cluster_name,
            b.password == self.password,
            b.running_mode == self.running_mode,
    {
        let mut b = self;
        b.config = config;
        b
    }

    /// Sets and parses the parameter URL. The URL must carry a non-empty
    /// `database` parameter in its query string; the database name is
    /// recorded.
    pub fn param_url(self, url: &String) -> (b: Self)
        requires
            url@.len() > 0,
            spec_param_url_valid(url@),
        ensures
            b.param_url@ == url@,
            Some(b.database@) == spec_url_database(url@),
            b.full_user_name == self.full_user_name,
            b.user_name == self.user_name,
            b.tenant_name == self.tenant_name,
            b.cluster_name == self.cluster_name,
            b.password == self.password,
            b.running_mode == self.running_mode,
    {
        let mut b = self;
        match find_database(url.as_str()) {
            Some(db) => {
                b.database = db;
            },
            None => {
                proof {
                    assert(false);
                }
            },
        }
        b.param_url = url.clone();
        b
    }

    /// Sets the system-tenant user name used for catalog probes.
    pub fn sys_user_name(self, name: &String) -> (b: Self)
        ensures
            b.config.sys_user_name@ == name@,
            b.full_user_name == self.full_user_name,
            b.param_url == self.param_url,
            b.database == self.database,
            b.running_mode == self.running_mode,
    {
        let mut b = self;
        b.config.sys_user_name = name.clone();
        b
    }

    /// Sets the system-tenant password used for catalog probes.
    pub fn sys_password(self, pwd: &String) -> (b: Self)
        ensures
            b.config.sys_password@ == pwd@,
            b.full_user_name == self.full_user_name,
            b.param_url == self.param_url,
            b.database == self.database,
            b.running_mode == self.running_mode,
    {
        let mut b = self;
        b.config.sys_password = pwd.clone();
        b
    }

    /// Assembles the client. The parameter URL and the full user name
    /// must have been set.
    pub fn build(self) -> (r: Result<ObTableClient, Error>)
        requires
            self.param_url@.len() > 0,
            self.full_user_name@.len() > 0,
        ensures
            r matches Ok(c) && ({
                &&& c.wf()
                &&& !c.initialized
                &&& !c.closed
                &&& c.identity.param_url == self.param_url
                &&& c.identity.full_user_name == self.full_user_name
                &&& c.identity.user_name == self.user_name
                &&& c.identity.tenant_name == self.tenant_name
                &&& c.identity.cluster_name == self.cluster_name
                &&& c.identity.password == self.password
                &&& c.identity.database == self.database
                &&& c.config == self.config
                &&& c.running_mode == self.running_mode
                &&& c.tables@.len() == 0
                &&& c.table_roster@.len() == 0
            }),
    {
        let identity = ClientIdentity {
            param_url: self.param_url,
            full_user_name: self.full_user_name,
            user_name: self.user_name,
            tenant_name: self.tenant_name,
            cluster_name: self.cluster_name,
            password: self.password,
            database: self.database,
            datasource_name: String::new(),
        };
        Ok(ObTableClient::new(identity, self.config, self.running_mode))
    }
}

impl Default for Builder {
    /// The same blank builder `new` returns.
    fn default() -> (b: Self)
        ensures
            b.full_user_name@.len() == 0,
            b.param_url@.len() == 0,
            b.running_mode is Normal,
    {
        Builder::new()
    }
}

} // verus!
