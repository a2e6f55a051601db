//! Which font files the window tries, in which order.
use vstd::prelude::*;
use crate::text::{
    chars_of, contains, ends_with, has_infix, has_prefix, has_suffix, lower_chars, lower_seq,
    starts_with, trim, trim_spec,
};

verus! {

/// A font setting that names a file rather than a family: it ends in
/// `.ttf`, `.otf` or `.ttc` (in any case), or starts with `/`, `./`, `../`
/// or `~/`; surrounding whitespace does not count.
pub open spec fn is_font_path(s: Seq<char>) -> bool {
    let t = trim_spec(s);
    let low = lower_seq(t);
    ||| has_suffix(low, seq!['.', 't', 't', 'f'])
    ||| has_suffix(low, seq!['.', 'o', 't', 'f'])
    ||| has_suffix(low, seq!['.', 't', 't', 'c'])
    ||| has_prefix(t, seq!['/'])
    ||| has_prefix(t, seq!['.', '/'])
    ||| has_prefix(t, seq!['.', '.', '/'])
    ||| has_prefix(t, seq!['~', '/'])
}

pub fn looks_like_font_path(s: &str) -> (r: bool)
    ensures
        r == is_font_path(s@),
{
    proof {
        reveal_strlit(".ttf");
        reveal_strlit(".otf");
        reveal_strlit(".ttc");
        reveal_strlit("/");
        reveal_strlit("./");
        reveal_strlit("../");
        reveal_strlit("~/");
        assert(".ttf"@ =~= seq!['.', 't', 't', 'f']);
        assert(".otf"@ =~= seq!['.', 'o', 't', 'f']);
        assert(".ttc"@ =~= seq!['.', 't', 't', 'c']);
        assert("/"@ =~= seq!['/']);
        assert("./"@ =~= seq!['.', '/']);
        assert("../"@ =~= seq!['.', '.', '/']);
        assert("~/"@ =~= seq!['~', '/']);
    }
    let t = trim(s);
    let lower = lower_chars(t);
    if ends_with(&lower, ".ttf") || ends_with(&lower, ".otf") || ends_with(&lower, ".ttc") {
        return true;
    }
    let chars = chars_of(t);
    starts_with(&chars, "/") || starts_with(&chars, "./") || starts_with(&chars, "../")
        || starts_with(&chars, "~/")
}

/// The font files known for a few family names (matched in any case).
pub open spec fn name_candidates_spec(value: Seq<char>) -> Seq<Seq<char>> {
    let low = lower_seq(value);
    if has_infix(low, "ubuntu sans mono"@) {
        seq!["/usr/share/fonts/truetype/ubuntu/UbuntuSansMono[wght].ttf"@]
    } else if has_infix(low, "ubuntu mono"@) {
        seq!["/usr/share/fonts/truetype/ubuntu/UbuntuMono-R.ttf"@]
    } else if has_infix(low, "noto sans mono"@) {
        seq!["/usr/share/fonts/truetype/noto/NotoSansMono-Regular.ttf"@]
    } else if has_infix(low, "dejavu"@) {
        seq!["/usr/share/fonts/truetype/dejavu/DejaVuSansMono.ttf"@]
    } else {
        Seq::empty()
    }
}

pub open spec fn strings_view(v: Seq<String>) -> Seq<Seq<char>> {
    v.map_values(|s: String| s@)
}

fn one_path(path: &str) -> (r: Vec<String>)
    ensures
        strings_view(r@) == seq![path@],
{
    let mut r: Vec<String> = Vec::new();
    r.push(path.to_owned());
    assert(strings_view(r@) =~= seq![path@]);
    r
}

pub fn font_name_candidates(value: &str) -> (r: Vec<String>)
    ensures
        strings_view(r@) == name_candidates_spec(value@),
{
    let lower = lower_chars(value);
    if contains(&lower, "ubuntu sans mono") {
        one_path("/usr/share/fonts/truetype/ubuntu/UbuntuSansMono[wght].ttf")
    } else if contains(&lower, "ubuntu mono") {
        one_path("/usr/share/fonts/truetype/ubuntu/UbuntuMono-R.ttf")
    } else if contains(&lower, "noto sans mono") {
        one_path("/usr/share/fonts/truetype/noto/NotoSansMono-Regular.ttf")
    } else if contains(&lower, "dejavu") {
        one_path("/usr/share/fonts/truetype/dejavu/DejaVuSansMono.ttf")
    } else {
        let r: Vec<String> = Vec::new();
        assert(strings_view(r@) =~= Seq::<Seq<char>>::empty());
        r
    }
}

/// `rest` appended to the path `base` as a path component: an absolute
/// `rest` replaces `base`, and a separator is put between them unless `base`
/// is empty or already ends with one.
pub open spec fn join_path(base: Seq<char>, rest: Seq<char>) -> Seq<char> {
    if rest.len() > 0 && rest[0] == '/' {
        rest
    } else if base.len() > 0 && base.last() != '/' {
        base + seq!['/'] + rest
    } else {
        base + rest
    }
}

/// The path a setting names: trimmed, with a leading `~/` standing for the
/// home directory when it is known.
pub open spec fn expand_user_path_spec(path: Seq<char>, home: Option<Seq<char>>) -> Seq<char> {
    let p = trim_spec(path);
    if has_prefix(p, seq!['~', '/']) && home is Some {
        join_path(home->0, p.skip(2))
    } else {
        p
    }
}

pub fn expand_user_path(path: &str, home: Option<&str>) -> (r: String)
    ensures
        r@ == expand_user_path_spec(
            path@,
            match home {
                Some(h) => Some(h@),
                None => None,
            },
        ),
{
    proof {
        reveal_strlit("~/");
        reveal_strlit("/");
        assert("~/"@ =~= seq!['~', '/']);
        assert("/"@ =~= seq!['/']);
    }
    let p = trim(path);
    let chars = chars_of(p);
    match home {
        Some(h) if starts_with(&chars, "~/") => {
            let rest = p.substring_char(2, p.unicode_len());
            assert(rest@ =~= p@.skip(2));
            let n = rest.unicode_len();
            if n > 0 && rest.get_char(0) == '/' {
                return rest.to_owned();
            }
            let mut out = h.to_owned();
            let hn = h.unicode_len();
            if hn > 0 && h.get_char(hn - 1) != '/' {
                out.append("/");
            }
            out.append(rest);
            out
        },
        _ => p.to_owned(),
    }
}

/// The setting to look up with fontconfig: a family name, that is a setting
/// that is not blank and does not name a file.
pub open spec fn fontconfig_query_spec(preferred: Option<Seq<char>>) -> Option<Seq<char>> {
    match preferred {
        Some(p) => if trim_spec(p).len() > 0 && !is_font_path(trim_spec(p)) {
            Some(trim_spec(p))
        } else {
            None
        },
        None => None,
    }
}

pub open spec fn opt_view(s: Option<&str>) -> Option<Seq<char>> {
    match s {
        Some(v) => Some(v@),
        None => None,
    }
}

pub fn fontconfig_query(preferred: Option<&str>) -> (r: Option<&str>)
    ensures
        opt_view(r) == fontconfig_query_spec(opt_view(preferred)),
{
    match preferred {
        Some(p) => {
            let raw = trim(p);
            if !raw.is_empty() && !looks_like_font_path(raw) {
                Some(raw)
            } else {
                None
            }
        },
        None => None,
    }
}

/// The file fontconfig's answer names: its first line, trimmed, unless that
/// is blank.
pub open spec fn fontconfig_answer_spec(stdout: Seq<char>) -> Option<Seq<char>> {
    if stdout.len() == 0 {
        None
    } else {
        let first = first_line(stdout);
        if trim_spec(first).len() == 0 {
            None
        } else {
            Some(trim_spec(first))
        }
    }
}

/// The characters before the first line feed, or all of them.
pub open spec fn first_line(s: Seq<char>) -> Seq<char> {
    if exists|i: int| 0 <= i < s.len() && s[i] == '\n' {
        s.take(choose|i: int| 0 <= i < s.len() && s[i] == '\n' && forall|k: int| 0 <= k < i ==> s[k] != '\n')
    } else {
        s
    }
}

pub fn fontconfig_answer(stdout: &str) -> (r: Option<&str>)
    ensures
        opt_view(r) == fontconfig_answer_spec(stdout@),
{
    let n = stdout.unicode_len();
    if n == 0 {
        return None;
    }
    let mut i: usize = 0;
    while i < n && stdout.get_char(i) != '\n'
        invariant
            n == stdout@.len(),
            i <= n,
            forall|k: int| 0 <= k < i ==> stdout@[k] != '\n',
        decreases n - i,
    {
        i = i + 1;
    }
    proof {
        if i < n {
            let j = choose|j: int| 0 <= j < stdout@.len() && stdout@[j] == '\n' && forall|k: int|
                0 <= k < j ==> stdout@[k] != '\n';
            assert(0 <= i < n && stdout@[i as int] == '\n' && forall|k: int| 0 <= k < i ==> stdout@[k] != '\n');
            assert(j == i) by {
                if j < i {
                    assert(stdout@[j] != '\n');
                } else if j > i {
                    assert(stdout@[i as int] != '\n');
                }
            }
        }
        assert(first_line(stdout@) =~= stdout@.take(i as int));
    }
    let first = stdout.substring_char(0, i);
    let t = trim(first);
    if t.is_empty() {
        None
    } else {
        Some(t)
    }
}

/// The files tried when no other font loads, in order.
pub open spec fn fallback_paths() -> Seq<Seq<char>> {
    seq![
        "/usr/share/fonts/truetype/ubuntu/UbuntuSansMono[wght].ttf"@,
        "/usr/share/fonts/truetype/ubuntu/UbuntuMono-R.ttf"@,
        "/usr/share/fonts/truetype/noto/NotoSansMono-Regular.ttf"@,
        "/usr/share/fonts/truetype/dejavu/DejaVuSansMono.ttf"@,
        "/usr/share/fonts/truetype/liberation/LiberationMono-Regular.ttf"@,
        "/usr/share/fonts/truetype/liberation2/LiberationMono-Regular.ttf"@,
        "/usr/share/fonts/opentype/urw-base35/NimbusMonoPS-Regular.otf"@,
    ]
}

fn push_fallbacks(out: &mut Vec<String>)
    ensures
        strings_view(final(out)@) == strings_view(old(out)@) + fallback_paths(),
{
    let ghost start = strings_view(out@);
    out.push("/usr/share/fonts/truetype/ubuntu/UbuntuSansMono[wght].ttf".to_owned());
    out.push("/usr/share/fonts/truetype/ubuntu/UbuntuMono-R.ttf".to_owned());
    out.push("/usr/share/fonts/truetype/noto/NotoSansMono-Regular.ttf".to_owned());
    out.push("/usr/share/fonts/truetype/dejavu/DejaVuSansMono.ttf".to_owned());
    out.push("/usr/share/fonts/truetype/liberation/LiberationMono-Regular.ttf".to_owned());
    out.push("/usr/share/fonts/truetype/liberation2/LiberationMono-Regular.ttf".to_owned());
    out.push("/usr/share/fonts/opentype/urw-base35/NimbusMonoPS-Regular.otf".to_owned());
    assert(strings_view(out@) =~= start + fallback_paths());
}

/// The files a setting names: for a setting naming a file, that file; for
/// a family name, fontconfig's file (if it found one) and the files known
/// for the name; nothing for a blank setting or none.
pub open spec fn named_candidates(
    preferred: Option<Seq<char>>,
    fontconfig: Option<Seq<char>>,
    home: Option<Seq<char>>,
) -> Seq<Seq<char>> {
    match preferred {
        Some(p) => if trim_spec(p).len() == 0 {
            Seq::empty()
        } else if is_font_path(trim_spec(p)) {
            seq![expand_user_path_spec(trim_spec(p), home)]
        } else {
            (match fontconfig {
                Some(f) => seq![f],
                None => Seq::empty(),
            }) + name_candidates_spec(trim_spec(p))
        },
        None => Seq::empty(),
    }
}

/// The files to try, before repeats are dropped: those the setting names,
/// then the fallbacks.
pub open spec fn raw_candidates(
    preferred: Option<Seq<char>>,
    fontconfig: Option<Seq<char>>,
    home: Option<Seq<char>>,
) -> Seq<Seq<char>> {
    named_candidates(preferred, fontconfig, home) + fallback_paths()
}

/// A path as its components, which is how paths are compared: whether it
/// starts at the root, whether it starts with a `.` component (a leading
/// `.` is kept only on a relative path), and the names between separators,
/// leaving out empty ones and `.`. So `a//b`, `a/./b` and `a/b/` are all
/// `a/b`.
pub struct PathKey {
    pub rooted: bool,
    pub current: bool,
    pub parts: Seq<Seq<char>>,
}

/// `done` with the name `cur` added, unless it is empty or `.`.
pub open spec fn flush_part(done: Seq<Seq<char>>, cur: Seq<char>) -> Seq<Seq<char>> {
    if cur.len() > 0 && cur != seq!['.'] {
        done.push(cur)
    } else {
        done
    }
}

/// The names finished so far and the one being read.
pub open spec fn parts_state(s: Seq<char>) -> (Seq<Seq<char>>, Seq<char>)
    decreases s.len(),
{
    if s.len() == 0 {
        (Seq::empty(), Seq::empty())
    } else {
        let (done, cur) = parts_state(s.drop_last());
        if s.last() == '/' {
            (flush_part(done, cur), Seq::empty())
        } else {
            (done, cur.push(s.last()))
        }
    }
}

pub open spec fn path_key(s: Seq<char>) -> PathKey {
    let rooted = s.len() > 0 && s[0] == '/';
    PathKey {
        rooted,
        current: !rooted && s.len() > 0 && s[0] == '.' && (s.len() == 1 || s[1] == '/'),
        parts: flush_part(parts_state(s).0, parts_state(s).1),
    }
}

/// Whether some path of `v` has the components of `x`.
pub open spec fn has_path(v: Seq<Seq<char>>, x: Seq<char>) -> bool {
    exists|i: int| 0 <= i < v.len() && #[trigger] path_key(v[i]) == path_key(x)
}

/// The paths without repeats (paths with the same components), each kept
/// where it first occurs.
pub open spec fn dedup(s: Seq<Seq<char>>) -> Seq<Seq<char>>
    decreases s.len(),
{
    if s.len() == 0 {
        s
    } else {
        let rest = dedup(s.drop_last());
        if has_path(rest, s.last()) {
            rest
        } else {
            rest.push(s.last())
        }
    }
}

struct Components {
    rooted: bool,
    current: bool,
    parts: Vec<Vec<char>>,
}

spec fn parts_view(v: Seq<Vec<char>>) -> Seq<Seq<char>> {
    v.map_values(|p: Vec<char>| p@)
}

spec fn components_view(c: Components) -> PathKey {
    PathKey { rooted: c.rooted, current: c.current, parts: parts_view(c.parts@) }
}

fn flush_into(done: &mut Vec<Vec<char>>, cur: Vec<char>)
    ensures
        parts_view(final(done)@) == flush_part(parts_view(old(done)@), cur@),
{
    if cur.len() > 0 && !(cur.len() == 1 && cur[0] == '.') {
        let ghost before = done@;
        let ghost c = cur@;
        done.push(cur);
        assert(parts_view(done@) =~= parts_view(before).push(c));
    } else {
        proof {
            if cur@.len() > 0 {
                assert(cur@ =~= seq!['.']);
            }
        }
    }
}

fn components_of(s: &str) -> (c: Components)
    ensures
        components_view(c) == path_key(s@),
{
    let chars = chars_of(s);
    let mut done: Vec<Vec<char>> = Vec::new();
    let mut cur: Vec<char> = Vec::new();
    let mut i: usize = 0;
    assert(chars@.take(0) =~= Seq::<char>::empty());
    assert(parts_view(done@) =~= Seq::<Seq<char>>::empty());
    while i < chars.len()
        invariant
            i <= chars@.len(),
            chars@ == s@,
            (parts_view(done@), cur@) == parts_state(chars@.take(i as int)),
        decreases chars@.len() - i,
    {
        assert(chars@.take(i + 1).drop_last() =~= chars@.take(i as int));
        let ch = chars[i];
        if ch == '/' {
            let finished = cur;
            cur = Vec::new();
            flush_into(&mut done, finished);
            assert(cur@ =~= Seq::<char>::empty());
        } else {
            cur.push(ch);
        }
        i = i + 1;
    }
    assert(chars@.take(chars@.len() as int) =~= chars@);
    flush_into(&mut done, cur);
    let n = chars.len();
    let rooted = n > 0 && chars[0] == '/';
    let current = !rooted && n > 0 && chars[0] == '.' && (n == 1 || chars[1] == '/');
    Components { rooted, current, parts: done }
}

fn same_chars(a: &Vec<char>, b: &Vec<char>) -> (r: bool)
    ensures
        r == (a@ == b@),
{
    if a.len() != b.len() {
        return false;
    }
    let mut i: usize = 0;
    while i < a.len()
        invariant
            i <= a@.len(),
            a@.len() == b@.len(),
            forall|k: int| 0 <= k < i ==> a@[k] == b@[k],
        decreases a@.len() - i,
    {
        if a[i] != b[i] {
            return false;
        }
        i = i + 1;
    }
    assert(a@ =~= b@);
    true
}

fn same_components(a: &Components, b: &Components) -> (r: bool)
    ensures
        r == (components_view(*a) == components_view(*b)),
{
    if a.rooted != b.rooted || a.current != b.current || a.parts.len() != b.parts.len() {
        proof {
            if a.parts.len() != b.parts.len() {
                assert(parts_view(a.parts@).len() != parts_view(b.parts@).len());
            }
        }
        return false;
    }
    let mut i: usize = 0;
    while i < a.parts.len()
        invariant
            i <= a.parts@.len(),
            a.parts@.len() == b.parts@.len(),
            forall|k: int| 0 <= k < i ==> a.parts@[k]@ == b.parts@[k]@,
        decreases a.parts@.len() - i,
    {
        if !same_chars(&a.parts[i], &b.parts[i]) {
            assert(parts_view(a.parts@)[i as int] != parts_view(b.parts@)[i as int]);
            return false;
        }
        i = i + 1;
    }
    assert(parts_view(a.parts@) =~= parts_view(b.parts@));
    true
}

/// Whether one of `seen` has the components `c`.
fn seen_path(seen: &Vec<Components>, c: &Components) -> (r: bool)
    ensures
        r == exists|i: int| 0 <= i < seen@.len() && #[trigger] components_view(seen@[i]) == components_view(*c),
{
    let mut i: usize = 0;
    while i < seen.len()
        invariant
            i <= seen@.len(),
            forall|k: int| 0 <= k < i ==> components_view(seen@[k]) != components_view(*c),
        decreases seen@.len() - i,
    {
        if same_components(&seen[i], c) {
            return true;
        }
        i = i + 1;
    }
    false
}

/// The font files to try, in order, each once: `preferred` is the font
/// setting, `fontconfig` the file fontconfig gave for it (when it was asked),
/// `home` the home directory.
pub fn font_candidates(preferred: Option<&str>, fontconfig: Option<String>, home: Option<&str>) -> (r: Vec<String>)
    ensures
        strings_view(r@) == dedup(
            raw_candidates(
                opt_view(preferred),
                match fontconfig {
                    Some(f) => Some(f@),
                    None => None,
                },
                opt_view(home),
            ),
        ),
{
    let mut raw: Vec<String> = Vec::new();
    if let Some(p) = preferred {
        let t = trim(p);
        if !t.is_empty() {
            if looks_like_font_path(t) {
                raw.push(expand_user_path(t, home));
                assert(strings_view(raw@) =~= seq![expand_user_path_spec(trim_spec(p@), opt_view(home))]);
            } else {
                let ghost fc = if fontconfig is Some {
                    seq![fontconfig->0@]
                } else {
                    Seq::<Seq<char>>::empty()
                };
                match fontconfig {
                    Some(f) => {
                        raw.push(f);
                    },
                    None => {},
                }
                assert(strings_view(raw@) =~= fc);
                let names = font_name_candidates(t);
                let ghost before = strings_view(raw@);
                let mut i: usize = 0;
                while i < names.len()
                    invariant
                        i <= names@.len(),
                        strings_view(raw@) =~= before + strings_view(names@).take(i as int),
                    decreases names@.len() - i,
                {
                    let ghost prev = raw@;
                    let c = names[i].clone();
                    raw.push(c);
                    assert(strings_view(raw@) =~= strings_view(prev).push(c@));
                    assert(strings_view(names@).take(i + 1) =~= strings_view(names@).take(i as int).push(names@[i as int]@));
                    i = i + 1;
                }
                assert(strings_view(names@).take(names@.len() as int) =~= strings_view(names@));
            }
        } else {
            assert(strings_view(raw@) =~= Seq::<Seq<char>>::empty());
        }
    } else {
        assert(strings_view(raw@) =~= Seq::<Seq<char>>::empty());
    }
    assert(strings_view(raw@) == named_candidates(
        opt_view(preferred),
        match fontconfig {
            Some(f) => Some(f@),
            None => None,
        },
        opt_view(home),
    ));
    push_fallbacks(&mut raw);
    let ghost all = strings_view(raw@);
    let mut out: Vec<String> = Vec::new();
    let mut seen: Vec<Components> = Vec::new();
    let mut j: usize = 0;
    assert(all.take(0) =~= Seq::<Seq<char>>::empty());
    while j < raw.len()
        invariant
            j <= raw@.len(),
            all == strings_view(raw@),
            strings_view(out@) == dedup(all.take(j as int)),
            seen@.len() == out@.len(),
            forall|k: int| 0 <= k < seen@.len() ==> #[trigger] components_view(seen@[k]) == path_key(out@[k]@),
        decreases raw@.len() - j,
    {
        assert(all.take(j + 1).drop_last() =~= all.take(j as int));
        let s = raw[j].clone();
        let c = components_of(s.as_str());
        let known = seen_path(&seen, &c);
        proof {
            let rest = dedup(all.take(j as int));
            if known {
                let i = choose|i: int| 0 <= i < seen@.len() && #[trigger] components_view(seen@[i]) == components_view(c);
                assert(rest[i] == out@[i]@);
                assert(path_key(rest[i]) == path_key(all[j as int]));
            } else {
                assert forall|i: int| 0 <= i < rest.len() implies #[trigger] path_key(rest[i]) != path_key(all[j as int]) by {
                    assert(rest[i] == out@[i]@);
                    assert(components_view(seen@[i]) == path_key(out@[i]@));
                }
            }
        }
        if !known {
            let ghost before = out@;
            out.push(s);
            seen.push(c);
            assert(strings_view(out@) =~= strings_view(before).push(all[j as int]));
        }
        j = j + 1;
    }
    assert(all.take(raw@.len() as int) =~= all);
    out
}

/// No file is tried twice (no two have the same components), every file the
/// rules name is tried (one with its components is), and only those are.
pub proof fn candidates_are_distinct(s: Seq<Seq<char>>)
    ensures
        forall|i: int, j: int|
            0 <= i < j < dedup(s).len() ==> path_key(#[trigger] dedup(s)[i]) != path_key(#[trigger] dedup(s)[j]),
        forall|x: Seq<char>| s.contains(x) ==> #[trigger] has_path(dedup(s), x),
        forall|x: Seq<char>| dedup(s).contains(x) ==> #[trigger] s.contains(x),
    decreases s.len(),
{
    if s.len() > 0 {
        let init = s.drop_last();
        candidates_are_distinct(init);
        let rest = dedup(init);
        let last = s.last();
        assert forall|x: Seq<char>| s.contains(x) implies #[trigger] has_path(dedup(s), x) by {
            let k = choose|k: int| 0 <= k < s.len() && s[k] == x;
            if k < s.len() - 1 {
                assert(init[k] == x);
                assert(init.contains(x));
                assert(has_path(rest, x));
                let m = choose|m: int| 0 <= m < rest.len() && #[trigger] path_key(rest[m]) == path_key(x);
                assert(dedup(s)[m] == rest[m]);
                assert(path_key(dedup(s)[m]) == path_key(x));
            } else if has_path(rest, last) {
                let m = choose|m: int| 0 <= m < rest.len() && #[trigger] path_key(rest[m]) == path_key(last);
                assert(dedup(s)[m] == rest[m]);
                assert(path_key(dedup(s)[m]) == path_key(x));
            } else {
                assert(dedup(s)[rest.len() as int] == x);
                assert(path_key(dedup(s)[rest.len() as int]) == path_key(x));
            }
        }
        assert forall|x: Seq<char>| dedup(s).contains(x) implies #[trigger] s.contains(x) by {
            let m = choose|m: int| 0 <= m < dedup(s).len() && dedup(s)[m] == x;
            if m < rest.len() {
                assert(rest[m] == x);
                assert(rest.contains(x));
                assert(init.contains(x));
                let k = choose|k: int| 0 <= k < init.len() && init[k] == x;
                assert(s[k] == x);
            } else {
                assert(x == last);
                assert(s[s.len() - 1] == x);
            }
        }
        assert forall|i: int, j: int| 0 <= i < j < dedup(s).len() implies path_key(
            #[trigger] dedup(s)[i],
        ) != path_key(#[trigger] dedup(s)[j]) by {
            if j < rest.len() {
                assert(dedup(s)[i] == rest[i] && dedup(s)[j] == rest[j]);
            } else {
                assert(!has_path(rest, last));
                assert(dedup(s)[i] == rest[i]);
                assert(dedup(s)[j] == last);
            }
        }
    }
}

} // verus!
