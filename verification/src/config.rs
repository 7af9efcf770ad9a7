//! Resolution of the server parameters from command line and configuration
//! file values, with the IPv4 address parser.

use vstd::prelude::*;

use crate::error::MyError;
use crate::numeric::dec_val;
use crate::numeric::numeral_digits;
use crate::numeric::parse_u8;
use crate::numeric::parse_u8_ok;
use crate::text::str_eq;

verus! {

/// `s` split on `'.'`: the maximal dot-free pieces, one more piece than
/// there are dots.
pub open spec fn split_dots(s: Seq<char>) -> Seq<Seq<char>>
    decreases s.len(),
{
    if s.len() == 0 {
        seq![Seq::<char>::empty()]
    } else if s[0] == '.' {
        seq![Seq::<char>::empty()] + split_dots(s.skip(1))
    } else {
        let rest = split_dots(s.skip(1));
        seq![seq![s[0]] + rest[0]] + rest.skip(1)
    }
}

proof fn lemma_split_dots_len(s: Seq<char>)
    ensures
        split_dots(s).len() >= 1,
    decreases s.len(),
{
    if s.len() > 0 {
        lemma_split_dots_len(s.skip(1));
    }
}

/// Split a string on `'.'`.
fn split_dots_str(s: &str) -> (r: Vec<String>)
    ensures
        r.deep_view() == split_dots(s@),
{
    let len = s.unicode_len();
    let mut parts: Vec<String> = Vec::new();
    let mut cur = String::new();
    let mut i: usize = 0;
    proof {
        assert(s@.skip(0) =~= s@);
        lemma_split_dots_len(s@);
        assert(parts.deep_view() =~= Seq::<Seq<char>>::empty());
        assert(cur@ + split_dots(s@)[0] =~= split_dots(s@)[0]);
        assert(parts.deep_view() + seq![cur@ + split_dots(s@.skip(0))[0]] + split_dots(
            s@.skip(0),
        ).skip(1) =~= seq![split_dots(s@)[0]] + split_dots(s@).skip(1));
        assert(seq![split_dots(s@)[0]] + split_dots(s@).skip(1) =~= split_dots(s@));
    }
    while i < len
        invariant
            len == s@.len(),
            0 <= i <= len,
            split_dots(s@) == parts.deep_view() + seq![cur@ + split_dots(s@.skip(i as int))[0]]
                + split_dots(s@.skip(i as int)).skip(1),
        decreases len - i,
    {
        let ghost tail = s@.skip(i as int);
        let ghost tail1 = s@.skip(i + 1);
        proof {
            assert(tail[0] == s@[i as int]);
            assert(tail.skip(1) =~= tail1);
            lemma_split_dots_len(tail1);
        }
        let c = s.get_char(i);
        if c == '.' {
            proof {
                assert(split_dots(tail) == seq![Seq::<char>::empty()] + split_dots(tail1));
                assert(split_dots(tail)[0] =~= Seq::<char>::empty());
                assert(split_dots(tail).skip(1) =~= split_dots(tail1));
                assert(cur@ + split_dots(tail)[0] =~= cur@);
            }
            let ghost parts0 = parts.deep_view();
            let ghost curv = cur@;
            parts.push(cur);
            cur = String::new();
            proof {
                assert(parts.deep_view().len() == parts0.len() + 1);
                assert forall|j: int| 0 <= j < parts0.len() + 1 implies parts.deep_view()[j] == (
                if j < parts0.len() {
                    parts0[j]
                } else {
                    curv
                }) by {
                    if j < parts0.len() {
                        assert(parts.deep_view()[j] == parts0[j]);
                    } else {
                        assert(parts.deep_view()[j] == curv);
                    }
                }
                assert(parts.deep_view() =~= parts0.push(curv));
                assert(Seq::<char>::empty() + split_dots(tail1)[0] =~= split_dots(tail1)[0]);
                assert(parts0.push(curv) + seq![cur@ + split_dots(tail1)[0]] + split_dots(
                    tail1,
                ).skip(1) =~= parts0 + seq![curv + split_dots(tail)[0]] + split_dots(tail).skip(1));
            }
        } else {
            proof {
                assert(split_dots(tail) == seq![seq![tail[0]] + split_dots(tail1)[0]]
                    + split_dots(tail1).skip(1));
                assert(split_dots(tail)[0] == seq![s@[i as int]] + split_dots(tail1)[0]);
                assert(split_dots(tail).skip(1) =~= split_dots(tail1).skip(1));
            }
            let piece = s.substring_char(i, i + 1);
            proof {
                assert(piece@ =~= seq![s@[i as int]]);
            }
            let ghost curv = cur@;
            cur.append(piece);
            proof {
                assert(cur@ + split_dots(tail1)[0] =~= curv + split_dots(tail)[0]);
                assert(parts.deep_view() + seq![cur@ + split_dots(tail1)[0]] + split_dots(
                    tail1,
                ).skip(1) =~= parts.deep_view() + seq![curv + split_dots(tail)[0]] + split_dots(
                    tail,
                ).skip(1));
            }
        }
        i = i + 1;
    }
    proof {
        assert(s@.skip(len as int) =~= Seq::<char>::empty());
        assert(split_dots(Seq::<char>::empty()) == seq![Seq::<char>::empty()]);
        assert(split_dots(Seq::<char>::empty())[0] =~= Seq::<char>::empty());
        assert(cur@ + split_dots(s@.skip(len as int))[0] =~= cur@);
        assert(split_dots(Seq::<char>::empty()).skip(1) =~= Seq::<Seq<char>>::empty());
    }
    let ghost parts0 = parts.deep_view();
    let ghost curv = cur@;
    parts.push(cur);
    proof {
        assert(parts.deep_view().len() == parts0.len() + 1);
        assert forall|j: int| 0 <= j < parts0.len() + 1 implies parts.deep_view()[j] == (if j
            < parts0.len() {
            parts0[j]
        } else {
            curv
        }) by {
            if j < parts0.len() {
                assert(parts.deep_view()[j] == parts0[j]);
            } else {
                assert(parts.deep_view()[j] == curv);
            }
        }
        assert(parts.deep_view() =~= parts0.push(curv));
        assert(parts0.push(curv) =~= parts0 + seq![curv] + Seq::<Seq<char>>::empty());
    }
    parts
}

/// A well-formed IPv4 dotted quad: four dot-separated decimal octets.
pub open spec fn addr_ok(a: Seq<char>) -> bool {
    split_dots(a).len() == 4 && (forall|j: int| 0 <= j < 4 ==> parse_u8_ok(split_dots(a)[j]))
}

/// The four octet values of a well-formed dotted quad.
pub open spec fn addr_octets(a: Seq<char>) -> Seq<u8> {
    Seq::new(4, |j: int| dec_val(numeral_digits(split_dots(a)[j])) as u8)
}

/// The first of the four pieces that is not a valid octet.
pub open spec fn first_bad_octet(a: Seq<char>) -> int {
    if !parse_u8_ok(split_dots(a)[0]) {
        0
    } else if !parse_u8_ok(split_dots(a)[1]) {
        1
    } else if !parse_u8_ok(split_dots(a)[2]) {
        2
    } else {
        3
    }
}

/// Parse an IPv4 address in `x.x.x.x` form into its four octets. Anything
/// but four dot-separated pieces is rejected outright; a piece that is not
/// a decimal octet is rejected naming that piece.
pub fn get_addr(addr: &str) -> (r: Result<[u8; 4], MyError>)
    ensures
        r is Ok <==> addr_ok(addr@),
        r is Ok ==> r->Ok_0@ == addr_octets(addr@),
        r is Err ==> match r->Err_0 {
            MyError::ParaError { para } => split_dots(addr@).len() != 4 && para@
                == "-a ip address must be x.x.x.x format, not "@ + addr@,
            MyError::ParseStringError { from, to, error: _ } => split_dots(addr@).len() == 4
                && !parse_u8_ok(split_dots(addr@)[first_bad_octet(addr@)]) && from@ == split_dots(
                addr@,
            )[first_bad_octet(addr@)] && to@ == "u8"@,
            _ => false,
        },
{
    let parts = split_dots_str(addr);
    if parts.len() != 4 {
        let mut para = String::from_str("-a ip address must be x.x.x.x format, not ");
        para.append(addr);
        return Err(MyError::ParaError { para });
    }
    let mut octets: [u8; 4] = [0, 0, 0, 0];
    let mut j: usize = 0;
    while j < 4
        invariant
            parts.deep_view() == split_dots(addr@),
            parts.len() == 4,
            split_dots(addr@).len() == 4,
            0 <= j <= 4,
            forall|k: int| 0 <= k < j ==> parse_u8_ok(split_dots(addr@)[k]),
            forall|k: int|
                0 <= k < j ==> octets@[k] == dec_val(numeral_digits(split_dots(addr@)[k])) as u8,
        decreases 4 - j,
    {
        match parse_u8(parts[j].as_str()) {
            Some(v) => {
                proof {
                    assert(parts@[j as int]@ == split_dots(addr@)[j as int]);
                }
                octets[j] = v;
            },
            None => {
                proof {
                    assert(parts@[j as int]@ == split_dots(addr@)[j as int]);
                    assert(!parse_u8_ok(split_dots(addr@)[j as int]));
                    assert(first_bad_octet(addr@) == j as int);
                }
                return Err(
                    MyError::ParseStringError {
                        from: parts[j].clone(),
                        to: String::from_str("u8"),
                        error: String::from_str("not a decimal number from 0 to 255"),
                    },
                );
            },
        }
        j = j + 1;
    }
    proof {
        assert(octets@ =~= addr_octets(addr@));
    }
    Ok(octets)
}

/// Command-line parameters as given, each optional.
pub struct Paras {
    pub addr: Option<String>,
    pub port: Option<u16>,
    pub language: Option<String>,
    pub outpath: Option<String>,
}

/// The mathematical content of `Paras`.
pub struct ParasView {
    pub addr: Option<Seq<char>>,
    pub port: Option<u16>,
    pub language: Option<Seq<char>>,
    pub outpath: Option<Seq<char>>,
}

impl View for Paras {
    type V = ParasView;

    open spec fn view(&self) -> ParasView {
        ParasView {
            addr: self.addr.deep_view(),
            port: self.port,
            language: self.language.deep_view(),
            outpath: self.outpath.deep_view(),
        }
    }
}

/// The fields of a configuration file.
pub struct Config {
    pub addr: String,
    pub port: u16,
    pub language: String,
    pub outpath: String,
}

/// The mathematical content of `Config`.
pub struct ConfigView {
    pub addr: Seq<char>,
    pub port: u16,
    pub language: Seq<char>,
    pub outpath: Seq<char>,
}

impl View for Config {
    type V = ConfigView;

    open spec fn view(&self) -> ConfigView {
        ConfigView {
            addr: self.addr@,
            port: self.port,
            language: self.language@,
            outpath: self.outpath@,
        }
    }
}

impl DeepView for Config {
    type V = ConfigView;

    open spec fn deep_view(&self) -> ConfigView {
        self@
    }
}

/// The resolved server parameters.
#[derive(Debug)]
pub struct ParsedParas {
    /// The four address octets.
    pub addr: [u8; 4],
    /// The address exactly as resolved, for splicing into pages.
    pub addr_str: String,
    /// The port to bind.
    pub port: u16,
    /// The editor locale.
    pub language: String,
    /// The output directory that holds the persisted maps.
    pub outpath: String,
}

/// The resolved address text: the explicit flag, else the configuration
/// file, else the loopback default.
pub open spec fn resolved_addr(cli: ParasView, cfg: Option<ConfigView>) -> Seq<char> {
    match cli.addr {
        Some(a) => a,
        None => match cfg {
            Some(c) => c.addr,
            None => "127.0.0.1"@,
        },
    }
}

/// The resolved port: the explicit flag, else the configuration file, else
/// 8081.
pub open spec fn resolved_port(cli: ParasView, cfg: Option<ConfigView>) -> u16 {
    match cli.port {
        Some(p) => p,
        None => match cfg {
            Some(c) => c.port,
            None => 8081u16,
        },
    }
}

/// The resolved language: the explicit flag, else the configuration file,
/// else `en`.
pub open spec fn resolved_language(cli: ParasView, cfg: Option<ConfigView>) -> Seq<char> {
    match cli.language {
        Some(l) => l,
        None => match cfg {
            Some(c) => c.language,
            None => "en"@,
        },
    }
}

/// The resolved output path: the explicit flag, else the configuration
/// file, else `./mindmap`.
pub open spec fn resolved_outpath(cli: ParasView, cfg: Option<ConfigView>) -> Seq<char> {
    match cli.outpath {
        Some(o) => o,
        None => match cfg {
            Some(c) => c.outpath,
            None => "./mindmap"@,
        },
    }
}

/// The languages the editor supports.
pub open spec fn valid_language(l: Seq<char>) -> bool {
    l == "zh_CN"@ || l == "zh_TW"@ || l == "en"@ || l == "ja"@ || l == "pt"@ || l == "ru"@
}

fn pick_string(cli: Option<String>, cfg: Option<&String>, dflt: &str) -> (r: String)
    ensures
        r@ == match cli.deep_view() {
            Some(a) => a,
            None => match cfg.deep_view() {
                Some(c) => c,
                None => dflt@,
            },
        },
{
    match cli {
        Some(a) => a,
        None => match cfg {
            Some(c) => c.clone(),
            None => String::from_str(dflt),
        },
    }
}

/// Resolve the server parameters from the command line values and the
/// parsed configuration file, an explicit flag always winning: reject a
/// malformed address, then an unsupported language.
pub fn parse_para(para: Paras, config: Option<Config>) -> (r: Result<ParsedParas, MyError>)
    ensures
        ({
            let cli = para@;
            let cfg = config.deep_view();
            let a = resolved_addr(cli, cfg);
            let lang = resolved_language(cli, cfg);
            &&& (r is Ok <==> addr_ok(a) && valid_language(lang))
            &&& (r is Ok ==> {
                let p = r->Ok_0;
                &&& p.addr@ == addr_octets(a)
                &&& p.addr_str@ == a
                &&& p.port == resolved_port(cli, cfg)
                &&& p.language@ == lang
                &&& p.outpath@ == resolved_outpath(cli, cfg)
            })
            &&& (!addr_ok(a) ==> r is Err && match r->Err_0 {
                MyError::ParaError { para } => split_dots(a).len() != 4 && para@
                    == "-a ip address must be x.x.x.x format, not "@ + a,
                MyError::ParseStringError { from, to, error: _ } => split_dots(a).len() == 4
                    && !parse_u8_ok(split_dots(a)[first_bad_octet(a)]) && from@ == split_dots(
                    a,
                )[first_bad_octet(a)] && to@ == "u8"@,
                _ => false,
            })
            &&& (addr_ok(a) && !valid_language(lang) ==> r is Err && match r->Err_0 {
                MyError::ParaError { para } => para@
                    == "-l only support zh_CN, zh_TW, en, ja, pt, ru, not "@ + lang,
                _ => false,
            })
        }),
{
    let addr_str = pick_string(
        para.addr,
        match &config {
            Some(c) => Some(&c.addr),
            None => None,
        },
        "127.0.0.1",
    );
    let addr = match get_addr(addr_str.as_str()) {
        Ok(a) => a,
        Err(e) => {
            return Err(e);
        },
    };
    let port: u16 = match para.port {
        Some(p) => p,
        None => match &config {
            Some(c) => c.port,
            None => 8081,
        },
    };
    let language = pick_string(
        para.language,
        match &config {
            Some(c) => Some(&c.language),
            None => None,
        },
        "en",
    );
    let outpath = pick_string(
        para.outpath,
        match &config {
            Some(c) => Some(&c.outpath),
            None => None,
        },
        "./mindmap",
    );
    let lang_ok = str_eq(language.as_str(), "zh_CN") || str_eq(language.as_str(), "zh_TW")
        || str_eq(language.as_str(), "en") || str_eq(language.as_str(), "ja") || str_eq(
        language.as_str(),
        "pt",
    ) || str_eq(language.as_str(), "ru");
    if !lang_ok {
        let mut para = String::from_str("-l only support zh_CN, zh_TW, en, ja, pt, ru, not ");
        para.append(language.as_str());
        return Err(MyError::ParaError { para });
    }
    Ok(ParsedParas { addr, addr_str, port, language, outpath })
}

} // verus!
