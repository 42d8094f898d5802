//! The mirror-list parser: turns the text of a mirror-list document
//! into an ordered sequence of mirror records, tagging each with the
//! country of the last `## ` header and keeping only addresses whose
//! protocol the configuration allows.

use vstd::prelude::*;
use vstd::string::*;
use crate::country::{clone_country, country_of, country_view, Country};
use crate::mirror::{mirror_models, Mirror, MirrorModel, MirrorUrl};
use crate::protocol::{parse_protocol, protocol_of, Config, Protocol};
use crate::text::{
    chomp_cr, find_line_end, has_prefix, lemma_first_nl_is, remove_all, split_lines, strip_all,
};
use crate::urls::{join_url, parse_url, url_join_of, url_parse_of};

verus! {

/// The error a parse can surface: the probe path could not be joined
/// onto a kept mirror address. That is a configuration fault, not a
/// data fault, and it aborts the parse.
#[derive(Clone, Copy, PartialEq, Eq, Structural, Debug)]
pub enum AppError {
    UrlJoinFailed,
}

/// A mirror line with the literal decorations removed.
pub open spec fn stripped_line(line: Seq<char>) -> Seq<char> {
    strip_all(strip_all(line, "Server = "@), "$repo/$arch"@)
}

/// The country that is current after a line: a `## ` header sets it,
/// every other line keeps it.
pub open spec fn country_after(line: Seq<char>, cur: Option<Seq<char>>) -> Option<Seq<char>> {
    if "## "@.is_prefix_of(line) {
        country_of(strip_all(line, "## "@))
    } else {
        cur
    }
}

/// The allowed mirror address a line carries: the protocol its scheme
/// names and the serialized URL. Headers, comments, empty remainders,
/// malformed URLs, unknown schemes and disallowed protocols all carry
/// none.
pub open spec fn line_mirror_url(line: Seq<char>, cfg: Config) -> Option<(Protocol, Seq<char>)> {
    if line.len() >= 1 && line[0] == '#' {
        None
    } else {
        let s = stripped_line(line);
        if s.len() == 0 {
            None
        } else {
            match url_parse_of(s) {
                None => None,
                Some((scheme, text)) => match protocol_of(scheme) {
                    None => None,
                    Some(p) => if cfg.allows(p) {
                        Some((p, text))
                    } else {
                        None
                    },
                },
            }
        }
    }
}

/// The mirrors of the given lines under the current country, or an
/// error when the probe path fails to join onto a kept address.
pub open spec fn parse_rec(
    lines: Seq<Seq<char>>,
    cur: Option<Seq<char>>,
    cfg: Config,
    path: Seq<char>,
) -> Result<Seq<MirrorModel>, AppError>
    decreases lines.len(),
{
    if lines.len() == 0 {
        Ok(seq![])
    } else {
        let line = lines[0];
        let cur2 = country_after(line, cur);
        let rest = parse_rec(lines.drop_first(), cur2, cfg, path);
        match line_mirror_url(line, cfg) {
            None => rest,
            Some((p, text)) => match url_join_of(text, path) {
                None => Err(AppError::UrlJoinFailed),
                Some(t) => match rest {
                    Ok(ms) => Ok(
                        seq![
                            MirrorModel { country: cur, scheme: p, url: text, url_to_test: t },
                        ] + ms,
                    ),
                    Err(e) => Err(e),
                },
            },
        }
    }
}

/// Every mirror a successful parse emits carries a protocol the
/// configuration allows.
pub proof fn lemma_parse_rec_allowed(
    lines: Seq<Seq<char>>,
    cur: Option<Seq<char>>,
    cfg: Config,
    path: Seq<char>,
)
    ensures
        parse_rec(lines, cur, cfg, path) matches Ok(ms) ==> forall|i: int|
            0 <= i < ms.len() ==> cfg.allows(#[trigger] ms[i].scheme),
    decreases lines.len(),
{
    if lines.len() == 0 {
    } else {
        let line = lines[0];
        let cur2 = country_after(line, cur);
        lemma_parse_rec_allowed(lines.drop_first(), cur2, cfg, path);
        match parse_rec(lines, cur, cfg, path) {
            Err(_) => {},
            Ok(ms) => {
                match line_mirror_url(line, cfg) {
                    None => {},
                    Some((p, text)) => {
                        let rest = parse_rec(lines.drop_first(), cur2, cfg, path);
                        assert(cfg.allows(p));
                        assert forall|i: int| 0 <= i < ms.len() implies cfg.allows(
                            #[trigger] ms[i].scheme,
                        ) by {
                            if i > 0 {
                                assert(ms[i] == rest->Ok_0[i - 1]);
                            }
                        }
                    },
                }
            },
        }
    }
}

/// Law: a malformed mirror line is dropped and the parse continues.
/// Removing a candidate line that carries no well-formed allowed
/// address changes neither the emitted mirrors nor whether the parse
/// fails: no fatal error ever arises from such a line.
pub proof fn lemma_malformed_line_dropped(
    lines: Seq<Seq<char>>,
    i: int,
    cur: Option<Seq<char>>,
    cfg: Config,
    path: Seq<char>,
)
    requires
        0 <= i < lines.len(),
        !(lines[i].len() >= 1 && lines[i][0] == '#'),
        line_mirror_url(lines[i], cfg) is None,
    ensures
        parse_rec(lines, cur, cfg, path) == parse_rec(lines.remove(i), cur, cfg, path),
    decreases lines.len(),
{
    if i == 0 {
        assert(!("## "@.is_prefix_of(lines[0]))) by {
            reveal_strlit("## ");
            if "## "@.is_prefix_of(lines[0]) {
                assert(lines[0].subrange(0, 3)[0] == lines[0][0]);
            }
        }
        assert(country_after(lines[0], cur) == cur);
        assert(lines.remove(0) =~~= lines.drop_first());
    } else {
        let cur2 = country_after(lines[0], cur);
        lemma_malformed_line_dropped(lines.drop_first(), i - 1, cur2, cfg, path);
        assert(lines.remove(i)[0] == lines[0]);
        assert(lines.remove(i).drop_first() =~~= lines.drop_first().remove(i - 1));
        assert(lines.remove(i).len() > 0);
        assert(country_after(lines.remove(i)[0], cur) == cur2);
    }
}

/// The step one line contributes to a parse.
pub enum LineOutcome {
    NewCountry(Option<Country>),
    Skip,
    Keep(Mirror),
    Fatal,
}

/// Processes one line of the document under the current country.
fn line_step(line: &str, cur: &Option<Country>, config: &Config, path: &str) -> (r: LineOutcome)
    ensures
        ({
            if "## "@.is_prefix_of(line@) {
                r matches LineOutcome::NewCountry(c) && country_view(c) == country_of(
                    strip_all(line@, "## "@),
                )
            } else {
                match line_mirror_url(line@, *config) {
                    None => r is Skip,
                    Some((p, text)) => match url_join_of(text, path@) {
                        None => r is Fatal,
                        Some(t) => r matches LineOutcome::Keep(m) && m@ == (MirrorModel {
                            country: country_view(*cur),
                            scheme: p,
                            url: text,
                            url_to_test: t,
                        }),
                    },
                }
            }
        }),
{
    if has_prefix(line, "## ") {
        let rest = remove_all(line, "## ");
        return LineOutcome::NewCountry(Country::from_str(rest.as_str()));
    }
    if has_prefix(line, "#") {
        proof {
            reveal_strlit("#");
            assert(line@.subrange(0, 1)[0] == line@[0]);
            assert(line@[0] == '#');
        }
        return LineOutcome::Skip;
    }
    proof {
        reveal_strlit("#");
        if line@.len() >= 1 && line@[0] == '#' {
            assert(line@.subrange(0, 1) =~= "#"@);
            assert("#"@.is_prefix_of(line@));
        }
    }
    let s1 = remove_all(line, "Server = ");
    let stripped = remove_all(s1.as_str(), "$repo/$arch");
    assert(stripped@ == stripped_line(line@));
    if stripped.as_str().is_empty() {
        return LineOutcome::Skip;
    }
    match parse_url(stripped.as_str()) {
        None => LineOutcome::Skip,
        Some(pu) => match parse_protocol(pu.scheme.as_str()) {
            None => LineOutcome::Skip,
            Some(proto) => {
                if !config.is_protocol_allowed(&proto) {
                    return LineOutcome::Skip;
                }
                match join_url(pu.text.as_str(), path) {
                    None => LineOutcome::Fatal,
                    Some(t) => {
                        let m = Mirror {
                            country: clone_country(cur),
                            url: MirrorUrl { scheme: proto, text: pu.text },
                            url_to_test: t,
                        };
                        LineOutcome::Keep(m)
                    },
                }
            },
        },
    }
}

/// Parses a mirror-list document. Malformed mirror lines are dropped
/// silently; the only fatal path is a probe path that cannot be
/// joined onto a kept address.
#[verifier::rlimit(60)]
pub fn parse_mirror_list(doc: &str, config: &Config, path_to_test: &str) -> (r: Result<
    Vec<Mirror>,
    AppError,
>)
    ensures
        r matches Ok(v) ==> parse_rec(split_lines(doc@), None, *config, path_to_test@) == Ok::<
            _,
            AppError,
        >(mirror_models(v@)),
        r matches Ok(v) ==> forall|k: int|
            0 <= k < v@.len() ==> config.allows(#[trigger] v@[k]@.scheme),
        r is Err <==> parse_rec(split_lines(doc@), None, *config, path_to_test@) is Err,
        r matches Err(e) ==> e == AppError::UrlJoinFailed,
{
    let ghost all = split_lines(doc@);
    let ghost cfg = *config;
    let ghost path = path_to_test@;
    let n = doc.unicode_len();
    let mut i: usize = 0;
    let mut cur: Option<Country> = None;
    let mut acc: Vec<Mirror> = Vec::new();
    proof {
        assert(doc@.subrange(0, n as int) =~= doc@);
        match parse_rec(all, None, cfg, path) {
            Ok(ms) => {
                assert(ms =~~= mirror_models(acc@) + ms);
            },
            Err(_) => {},
        }
    }
    while i < n
        invariant
            i <= n,
            n == doc@.len(),
            all == split_lines(doc@),
            cfg == *config,
            path == path_to_test@,
            parse_rec(all, None, cfg, path) is Err <==> parse_rec(
                split_lines(doc@.subrange(i as int, n as int)),
                country_view(cur),
                cfg,
                path,
            ) is Err,
            parse_rec(all, None, cfg, path) matches Ok(ms) ==> (parse_rec(
                split_lines(doc@.subrange(i as int, n as int)),
                country_view(cur),
                cfg,
                path,
            ) matches Ok(rest) && ms == mirror_models(acc@) + rest),
        decreases n - i,
    {
        let ghost suffix = doc@.subrange(i as int, n as int);
        let j = find_line_end(doc, i);
        proof {
            assert forall|k: int| 0 <= k < j - i implies suffix[k] != '\n' by {
                assert(suffix[k] == doc@[i + k]);
            }
            if j < n {
                assert(suffix[j - i] == doc@[j as int]);
            }
            lemma_first_nl_is(suffix, j - i);
        }
        let line: &str = if j >= n {
            doc.substring_char(i, n)
        } else if j > i && doc.get_char(j - 1) == '\r' {
            doc.substring_char(i, j - 1)
        } else {
            doc.substring_char(i, j)
        };
        let next_i: usize = if j >= n {
            n
        } else {
            j + 1
        };
        let ghost suffix_next = doc@.subrange(next_i as int, n as int);
        proof {
            if j >= n {
                assert(line@ =~= suffix);
                assert(suffix_next =~= Seq::<char>::empty());
                assert(split_lines(suffix) =~~= seq![line@] + split_lines(suffix_next));
            } else {
                let raw = suffix.subrange(0, j - i);
                assert(raw =~= doc@.subrange(i as int, j as int));
                if j > i && doc@[j - 1] == '\r' {
                    assert(raw[raw.len() - 1] == doc@[j - 1]);
                    assert(raw.drop_last() =~= doc@.subrange(i as int, j - 1));
                    assert(chomp_cr(raw) == line@);
                } else {
                    if raw.len() > 0 {
                        assert(raw[raw.len() - 1] == doc@[j - 1]);
                    }
                    assert(chomp_cr(raw) == line@);
                }
                assert(suffix.subrange(j - i + 1, suffix.len() as int) =~= suffix_next);
                assert(split_lines(suffix) =~~= seq![line@] + split_lines(suffix_next));
            }
            assert(split_lines(suffix)[0] == line@);
            assert(split_lines(suffix).drop_first() =~~= split_lines(suffix_next));
        }
        let ghost cv_before = country_view(cur);
        let step = line_step(line, &cur, config, path_to_test);
        match step {
            LineOutcome::NewCountry(c) => {
                proof {
                    reveal_strlit("## ");
                    assert(line@.subrange(0, 3)[0] == line@[0]);
                    assert(line@[0] == '#');
                    assert(line_mirror_url(line@, cfg) is None);
                }
                cur = c;
            },
            LineOutcome::Skip => {},
            LineOutcome::Keep(m) => {
                proof {
                    match parse_rec(all, None, cfg, path) {
                        Err(_) => {},
                        Ok(ms) => {
                            let rest = parse_rec(split_lines(suffix), cv_before, cfg, path);
                            let rest2 = parse_rec(split_lines(suffix_next), cv_before, cfg, path);
                            assert(rest matches Ok(rs) && rest2 matches Ok(rs2) && rs == seq![m@]
                                + rs2);
                            assert(mirror_models(acc@.push(m)) =~~= mirror_models(acc@) + seq![
                                m@,
                            ]);
                            assert(ms =~~= mirror_models(acc@.push(m)) + rest2->Ok_0);
                        },
                    }
                }
                acc.push(m);
            },
            LineOutcome::Fatal => {
                proof {
                    assert(parse_rec(split_lines(suffix), cv_before, cfg, path) is Err);
                }
                return Err(AppError::UrlJoinFailed);
            },
        }
        proof {
            if !("## "@.is_prefix_of(line@)) {
                assert(country_after(line@, cv_before) == cv_before);
            }
        }
        i = next_i;
    }
    proof {
        assert(doc@.subrange(n as int, n as int) =~= Seq::<char>::empty());
        assert(split_lines(doc@.subrange(n as int, n as int)) =~~= Seq::<Seq<char>>::empty());
        lemma_parse_rec_allowed(all, None, cfg, path);
        match parse_rec(all, None, cfg, path) {
            Err(_) => {},
            Ok(ms) => {
                assert(ms =~~= mirror_models(acc@));
                assert forall|k: int| 0 <= k < acc@.len() implies cfg.allows(
                    #[trigger] acc@[k]@.scheme,
                ) by {
                    assert(ms[k] == acc@[k]@);
                    assert(cfg.allows(ms[k].scheme));
                }
            },
        }
    }
    Ok(acc)
}

} // verus!
