//! The launcher's argument grammar.
//!
//! An invocation is a list of flag tokens followed by `--` and the
//! pass-through tail (the command Steam itself would have run):
//! `-e`/`--env KEY=VALUE` adds one environment override and may repeat;
//! `-c`/`--custom-exe PATH` names a replacement executable, last one wins.

use vstd::prelude::*;
use vstd::string::StrSliceExecFns;

verus! {

/// One `KEY=VALUE` environment override, as parsed from a `-e`/`--env` flag.
#[derive(Debug)]
pub struct EnvPair {
    pub key: String,
    pub value: String,
}

impl View for EnvPair {
    type V = (Seq<char>, Seq<char>);

    open spec fn view(&self) -> (Seq<char>, Seq<char>) {
        (self.key@, self.value@)
    }
}

impl DeepView for EnvPair {
    type V = (Seq<char>, Seq<char>);

    open spec fn deep_view(&self) -> (Seq<char>, Seq<char>) {
        self.view()
    }
}

impl Clone for EnvPair {
    fn clone(&self) -> (r: Self)
        ensures
            r == *self,
    {
        EnvPair { key: self.key.clone(), value: self.value.clone() }
    }
}

/// A configuration error: the argument vector does not fit the grammar.
/// Nothing is spawned after one of these.
#[derive(Debug)]
pub enum ParseError {
    /// A `-e`/`--env` value with no `=` in it; holds that value.
    MissingSeparator(String),
    /// A flag as the last token, with no value after it; holds the flag.
    MissingValue(String),
    /// A token before `--` that is not a recognized flag; holds that token.
    UnexpectedToken(String),
}

/// `ParseError` with its strings abstracted to character sequences.
pub enum ParseErrorModel {
    MissingSeparator(Seq<char>),
    MissingValue(Seq<char>),
    UnexpectedToken(Seq<char>),
}

impl View for ParseError {
    type V = ParseErrorModel;

    open spec fn view(&self) -> ParseErrorModel {
        match self {
            ParseError::MissingSeparator(s) => ParseErrorModel::MissingSeparator(s@),
            ParseError::MissingValue(s) => ParseErrorModel::MissingValue(s@),
            ParseError::UnexpectedToken(s) => ParseErrorModel::UnexpectedToken(s@),
        }
    }
}

/// Index of the first `=` in `s`; meaningful only when `s` contains one.
pub open spec fn first_eq(s: Seq<char>) -> int
    decreases s.len(),
{
    if s.len() == 0 {
        0
    } else if s[0] == '=' {
        0
    } else {
        1 + first_eq(s.skip(1))
    }
}

/// The key/value split of an env token at its first `=`: everything before
/// it is the key, everything after it is the value.
pub open spec fn split_pair(s: Seq<char>) -> (Seq<char>, Seq<char>) {
    (s.take(first_eq(s)), s.skip(first_eq(s) + 1))
}

proof fn lemma_first_eq_at(s: Seq<char>, j: int)
    requires
        0 <= j < s.len(),
        s[j] == '=',
        forall|k: int| 0 <= k < j ==> s[k] != '=',
    ensures
        first_eq(s) == j,
    decreases j,
{
    if j > 0 {
        let t = s.skip(1);
        assert forall|k: int| 0 <= k < j - 1 implies t[k] != '=' by {
            assert(t[k] == s[k + 1]);
        }
        assert(t[j - 1] == s[j]);
        lemma_first_eq_at(t, j - 1);
    }
}

/// Split one `KEY=VALUE` token at its first `=`; tokens without a `=` are
/// the configuration error the launcher reports instead of spawning.
pub fn parse_key_val(s: &str) -> (r: Result<EnvPair, ParseError>)
    ensures
        r is Ok <==> s@.contains('='),
        r matches Ok(p) ==> p@ == split_pair(s@),
        r matches Err(e) ==> e@ == ParseErrorModel::MissingSeparator(s@),
{
    let n: usize = s.unicode_len();
    let mut j: usize = 0;
    while j < n
        invariant
            n == s@.len(),
            j <= n,
            forall|k: int| 0 <= k < j ==> s@[k] != '=',
        decreases n - j,
    {
        if s.get_char(j) == '=' {
            proof {
                lemma_first_eq_at(s@, j as int);
                assert(s@.contains('=')) by {
                    assert(s@[j as int] == '=');
                }
            }
            let key = s.substring_char(0, j).to_owned();
            let value = s.substring_char(j + 1, n).to_owned();
            return Ok(EnvPair { key, value });
        }
        j = j + 1;
    }
    Err(ParseError::MissingSeparator(s.to_owned()))
}

/// A parsed invocation: environment overrides in the order given, the
/// optional replacement executable, and the pass-through tail
/// (`original_exe arg1 arg2 ...` as Steam supplied it after `--`).
#[derive(Debug)]
pub struct LaunchRequest {
    pub env: Vec<EnvPair>,
    pub custom_exe: Option<String>,
    pub steam_command: Vec<String>,
}

/// `LaunchRequest` with its strings abstracted to character sequences.
#[verifier::ext_equal]
pub struct ReqModel {
    pub env: Seq<(Seq<char>, Seq<char>)>,
    pub custom_exe: Option<Seq<char>>,
    pub tail: Seq<Seq<char>>,
}

impl View for LaunchRequest {
    type V = ReqModel;

    open spec fn view(&self) -> ReqModel {
        ReqModel {
            env: self.env.deep_view(),
            custom_exe: self.custom_exe.deep_view(),
            tail: self.steam_command.deep_view(),
        }
    }
}

/// The argument grammar, as one function on the token list. Flags come
/// before `--`; each `-e`/`--env` keeps its `KEY=VALUE` pair in order; of
/// repeated `-c`/`--custom-exe` flags the last wins; everything after `--`
/// is the pass-through tail, taken verbatim. The error is the first flag
/// with no value after it, env value without `=`, or unrecognized token.
pub open spec fn parse_tokens(ts: Seq<Seq<char>>) -> Result<ReqModel, ParseErrorModel>
    decreases ts.len(),
{
    if ts.len() == 0 {
        Ok(ReqModel { env: Seq::empty(), custom_exe: None, tail: Seq::empty() })
    } else if ts[0] == "--"@ {
        Ok(ReqModel { env: Seq::empty(), custom_exe: None, tail: ts.skip(1) })
    } else if ts[0] == "-e"@ || ts[0] == "--env"@ {
        if ts.len() == 1 {
            Err(ParseErrorModel::MissingValue(ts[0]))
        } else if !ts[1].contains('=') {
            Err(ParseErrorModel::MissingSeparator(ts[1]))
        } else {
            match parse_tokens(ts.skip(2)) {
                Ok(m) => Ok(
                    ReqModel {
                        env: seq![split_pair(ts[1])] + m.env,
                        custom_exe: m.custom_exe,
                        tail: m.tail,
                    },
                ),
                Err(e) => Err(e),
            }
        }
    } else if ts[0] == "-c"@ || ts[0] == "--custom-exe"@ {
        if ts.len() == 1 {
            Err(ParseErrorModel::MissingValue(ts[0]))
        } else {
            match parse_tokens(ts.skip(2)) {
                Ok(m) => Ok(
                    ReqModel {
                        env: m.env,
                        custom_exe: if m.custom_exe is Some {
                            m.custom_exe
                        } else {
                            Some(ts[1])
                        },
                        tail: m.tail,
                    },
                ),
                Err(e) => Err(e),
            }
        }
    } else {
        Err(ParseErrorModel::UnexpectedToken(ts[0]))
    }
}

/// The exec parser's result, lifted to the model.
pub open spec fn parse_outcome(r: Result<LaunchRequest, ParseError>) -> Result<
    ReqModel,
    ParseErrorModel,
> {
    match r {
        Ok(q) => Ok(q@),
        Err(e) => Err(e@),
    }
}

/// Character-for-character equality of two string slices.
pub fn str_eq(a: &str, b: &str) -> (r: bool)
    ensures
        r <==> a@ == b@,
{
    let an: usize = a.unicode_len();
    let bn: usize = b.unicode_len();
    if an != bn {
        return false;
    }
    let mut j: usize = 0;
    while j < an
        invariant
            an == a@.len(),
            an == b@.len(),
            j <= an,
            forall|k: int| 0 <= k < j ==> a@[k] == b@[k],
        decreases an - j,
    {
        if a.get_char(j) != b.get_char(j) {
            return false;
        }
        j = j + 1;
    }
    proof {
        assert(a@ =~= b@);
    }
    true
}

/// Clone the elements of `v` from index `from` on.
fn vec_suffix(v: &Vec<String>, from: usize) -> (r: Vec<String>)
    requires
        from <= v.len(),
    ensures
        r.deep_view() == v.deep_view().skip(from as int),
{
    let mut r: Vec<String> = Vec::new();
    let mut j: usize = from;
    while j < v.len()
        invariant
            from <= j <= v.len(),
            r.deep_view() =~= v.deep_view().subrange(from as int, j as int),
        decreases v.len() - j,
    {
        let ghost prevdv = r.deep_view();
        r.push(v[j].clone());
        proof {
            assert(prevdv.len() == j - from);
            assert(r.deep_view().len() == prevdv.len() + 1);
            assert forall|k: int|
                0 <= k < r.deep_view().len() implies r.deep_view()[k] == v.deep_view().subrange(
                from as int,
                j as int + 1,
            )[k] by {
                if k < prevdv.len() {
                    assert(r.deep_view()[k] == prevdv[k]);
                }
            }
            assert(r.deep_view() =~= v.deep_view().subrange(from as int, j as int + 1));
        }
        j = j + 1;
    }
    proof {
        assert(r.deep_view() =~= v.deep_view().skip(from as int));
    }
    r
}

fn parse_from(v: &Vec<String>, i: usize) -> (r: Result<LaunchRequest, ParseError>)
    requires
        i <= v.len(),
    ensures
        parse_outcome(r) == parse_tokens(v.deep_view().skip(i as int)),
    decreases v.len() - i,
{
    let ghost ts = v.deep_view().skip(i as int);
    if i == v.len() {
        let req = LaunchRequest { env: Vec::new(), custom_exe: None, steam_command: Vec::new() };
        proof {
            assert(ts =~= Seq::<Seq<char>>::empty());
            assert(req@ =~= (ReqModel {
                env: Seq::empty(),
                custom_exe: None,
                tail: Seq::empty(),
            }));
        }
        return Ok(req);
    }
    let tok: &String = &v[i];
    proof {
        assert(ts[0] == v@[i as int]@);
    }
    if str_eq(tok.as_str(), "--") {
        let tail = vec_suffix(v, i + 1);
        let req = LaunchRequest { env: Vec::new(), custom_exe: None, steam_command: tail };
        proof {
            assert(tail.deep_view() =~= ts.skip(1));
            assert(req@ =~= (ReqModel { env: Seq::empty(), custom_exe: None, tail: ts.skip(1) }));
        }
        return Ok(req);
    }
    if str_eq(tok.as_str(), "-e") || str_eq(tok.as_str(), "--env") {
        if i + 1 == v.len() {
            return Err(ParseError::MissingValue(tok.clone()));
        }
        proof {
            assert(ts[1] == v@[i as int + 1]@);
        }
        let pair = match parse_key_val(v[i + 1].as_str()) {
            Ok(p) => p,
            Err(e) => {
                return Err(e);
            },
        };
        let rec = parse_from(v, i + 2);
        proof {
            assert(v.deep_view().skip(i as int + 2) =~= ts.skip(2));
        }
        match rec {
            Ok(req) => {
                let mut req = req;
                let ghost rec_model = req@;
                req.env.insert(0, pair);
                proof {
                    assert(req.env.deep_view() =~= seq![pair@] + rec_model.env);
                    assert(req@ =~= (ReqModel {
                        env: seq![split_pair(ts[1])] + rec_model.env,
                        custom_exe: rec_model.custom_exe,
                        tail: rec_model.tail,
                    }));
                }
                Ok(req)
            },
            Err(e) => Err(e),
        }
    } else if str_eq(tok.as_str(), "-c") || str_eq(tok.as_str(), "--custom-exe") {
        if i + 1 == v.len() {
            return Err(ParseError::MissingValue(tok.clone()));
        }
        proof {
            assert(ts[1] == v@[i as int + 1]@);
        }
        let value = v[i + 1].clone();
        let rec = parse_from(v, i + 2);
        proof {
            assert(v.deep_view().skip(i as int + 2) =~= ts.skip(2));
        }
        match rec {
            Ok(req) => {
                let mut req = req;
                let ghost rec_model = req@;
                if req.custom_exe.is_none() {
                    req.custom_exe = Some(value);
                }
                proof {
                    assert(req@ =~= (ReqModel {
                        env: rec_model.env,
                        custom_exe: if rec_model.custom_exe is Some {
                            rec_model.custom_exe
                        } else {
                            Some(ts[1])
                        },
                        tail: rec_model.tail,
                    }));
                }
                Ok(req)
            },
            Err(e) => Err(e),
        }
    } else {
        Err(ParseError::UnexpectedToken(tok.clone()))
    }
}

/// The positional preset of the same launcher: the first argument is the
/// replacement executable, the second the original executable (dropped by
/// resolution, like any tail head), and the rest are forwarded. Expressed
/// as the `LaunchRequest` the flag grammar would produce: an override and
/// a pass-through tail, with no environment overrides. `None` when no
/// replacement executable was given at all.
pub fn parse_positional(v: &Vec<String>) -> (r: Option<LaunchRequest>)
    ensures
        r is None <==> v@.len() == 0,
        r matches Some(q) ==> {
            &&& q@.custom_exe == Some(v.deep_view()[0])
            &&& q@.env == Seq::<(Seq<char>, Seq<char>)>::empty()
            &&& q@.tail == v.deep_view().skip(1)
        },
{
    if v.len() == 0 {
        return None;
    }
    let custom = v[0].clone();
    let tail = vec_suffix(v, 1);
    let req = LaunchRequest { env: Vec::new(), custom_exe: Some(custom), steam_command: tail };
    proof {
        assert(req@.env =~= Seq::<(Seq<char>, Seq<char>)>::empty());
        assert(v.deep_view()[0] == v@[0]@);
    }
    Some(req)
}

/// Parse the launcher's argument vector (everything after the program
/// name) into a `LaunchRequest`, exactly as `parse_tokens` says.
pub fn parse_args(v: &Vec<String>) -> (r: Result<LaunchRequest, ParseError>)
    ensures
        parse_outcome(r) == parse_tokens(v.deep_view()),
{
    let r = parse_from(v, 0);
    proof {
        assert(v.deep_view().skip(0) =~= v.deep_view());
    }
    r
}

} // verus!
