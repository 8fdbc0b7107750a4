//! Generates Rust source for syntax-tree node types from one-line descriptions such as
//! `Binary: Expr left, Token operator, Expr right`.
use crate::text::{chars_of, is_white_space, is_whitespace, str_eq, string_from_chars};
use vstd::prelude::*;
use vstd::string::StringExecFns;

verus! {

/// A field of a node type.
pub struct Field {
    pub fd_name: String,
    pub fd_type: String,
}

/// A node type and its fields.
pub struct Class {
    pub name: String,
    pub fields: Vec<Field>,
}

/// A class as a mathematical value: its name, and each field's (name, type).
pub struct ClassV {
    pub name: Seq<char>,
    pub fields: Seq<(Seq<char>, Seq<char>)>,
}

impl View for Class {
    type V = ClassV;

    open spec fn view(&self) -> ClassV {
        ClassV {
            name: self.name@,
            fields: self.fields@.map_values(|f: Field| (f.fd_name@, f.fd_type@)),
        }
    }
}

pub open spec fn classes_view(cs: Seq<Class>) -> Seq<ClassV> {
    cs.map_values(|c: Class| c@)
}

/// The pieces of `s[i..]` between occurrences of `sep`, with `pieces` and the piece `cur`
/// read so far (as `str::split` with a character separates text).
pub open spec fn split_from(
    s: Seq<char>,
    i: int,
    sep: char,
    pieces: Seq<Seq<char>>,
    cur: Seq<char>,
) -> Seq<Seq<char>>
    decreases s.len() - i,
{
    if i < 0 || i >= s.len() {
        pieces.push(cur)
    } else if s[i] == sep {
        split_from(s, i + 1, sep, pieces.push(cur), seq![])
    } else {
        split_from(s, i + 1, sep, pieces, cur.push(s[i]))
    }
}

pub open spec fn split(s: Seq<char>, sep: char) -> Seq<Seq<char>> {
    split_from(s, 0, sep, seq![], seq![])
}

/// The words of `s[i..]`: its maximal runs of characters other than white space, with
/// `words` and the word `cur` read so far (as `str::split_whitespace` gives them).
pub open spec fn words_from(s: Seq<char>, i: int, words: Seq<Seq<char>>, cur: Seq<char>) -> Seq<
    Seq<char>,
>
    decreases s.len() - i,
{
    if i < 0 || i >= s.len() {
        if cur.len() > 0 {
            words.push(cur)
        } else {
            words
        }
    } else if is_white_space(s[i]) {
        words_from(s, i + 1, if cur.len() > 0 {
            words.push(cur)
        } else {
            words
        }, seq![])
    } else {
        words_from(s, i + 1, words, cur.push(s[i]))
    }
}

pub open spec fn split_whitespace(s: Seq<char>) -> Seq<Seq<char>> {
    words_from(s, 0, seq![], seq![])
}

/// `s` without leading white space.
pub open spec fn trim_start(s: Seq<char>) -> Seq<char>
    decreases s.len(),
{
    if s.len() > 0 && is_white_space(s[0]) {
        trim_start(s.drop_first())
    } else {
        s
    }
}

/// `s` without trailing white space.
pub open spec fn trim_end(s: Seq<char>) -> Seq<char>
    decreases s.len(),
{
    if s.len() > 0 && is_white_space(s.last()) {
        trim_end(s.drop_last())
    } else {
        s
    }
}

/// `s` without leading and trailing white space (as `str::trim` gives it).
pub open spec fn trim(s: Seq<char>) -> Seq<char> {
    trim_end(trim_start(s))
}

/// A field from its description, `type name`; none unless the description is exactly two
/// words.
pub open spec fn field_of(desc: Seq<char>) -> Option<(Seq<char>, Seq<char>)> {
    let w = split_whitespace(desc);
    if w.len() == 2 {
        Some((w[1], w[0]))
    } else {
        None
    }
}

/// The fields of comma-separated descriptions, from index `k` on; none if one is no field.
pub open spec fn fields_of(descs: Seq<Seq<char>>, k: int) -> Option<Seq<(Seq<char>, Seq<char>)>>
    decreases descs.len() - k,
{
    if k < 0 || k >= descs.len() {
        Some(seq![])
    } else {
        match (field_of(descs[k]), fields_of(descs, k + 1)) {
            (Some(f), Some(rest)) => Some(seq![f] + rest),
            _ => None,
        }
    }
}

/// The class a line describes: `Name: type name, type name, ...`; none for a line without
/// exactly one `:` or with a field that is not two words.
pub open spec fn class_of(line: Seq<char>) -> Option<ClassV> {
    let parts = split(line, ':');
    if parts.len() != 2 {
        None
    } else {
        match fields_of(split(trim(parts[1]), ','), 0) {
            Some(fields) => Some(ClassV { name: trim(parts[0]), fields }),
            None => None,
        }
    }
}

/// The classes of the lines from index `k` on; none if a line describes none.
pub open spec fn classes_of(lines: Seq<Seq<char>>, k: int) -> Option<Seq<ClassV>>
    decreases lines.len() - k,
{
    if k < 0 || k >= lines.len() {
        Some(seq![])
    } else {
        match (class_of(lines[k]), classes_of(lines, k + 1)) {
            (Some(c), Some(rest)) => Some(seq![c] + rest),
            _ => None,
        }
    }
}

/// The descriptions of the syntax-tree node types that the generator knows.
pub open spec fn ast_descriptions() -> Seq<Seq<char>> {
    seq![
        "Binary: Expr left, Token operator, Expr right"@,
        "Grouping: Expr expression"@,
        "Literal: Object value"@,
        "Unary: Token operator, Expr right"@,
    ]
}

/// The descriptions of the syntax-tree node types that the generator knows.
pub fn ast_vals() -> (r: Vec<&'static str>)
    ensures
        r@.map_values(|l: &str| l@) == ast_descriptions(),
{
    let r = vec![
        "Binary: Expr left, Token operator, Expr right",
        "Grouping: Expr expression",
        "Literal: Object value",
        "Unary: Token operator, Expr right",
    ];
    assert(r@.map_values(|l: &str| l@) =~= ast_descriptions());
    r
}

fn split_chars(s: &Vec<char>, sep: char) -> (r: Vec<Vec<char>>)
    ensures
        r@.map_values(|v: Vec<char>| v@) == split(s@, sep),
{
    let mut pieces: Vec<Vec<char>> = Vec::new();
    let mut cur: Vec<char> = Vec::new();
    let mut i: usize = 0;
    assert(pieces@.map_values(|v: Vec<char>| v@) =~= seq![]);
    while i < s.len()
        invariant
            i <= s@.len(),
            split(s@, sep) == split_from(
                s@,
                i as int,
                sep,
                pieces@.map_values(|v: Vec<char>| v@),
                cur@,
            ),
        decreases s.len() - i,
    {
        if s[i] == sep {
            let ghost before = pieces@;
            let piece = cur;
            pieces.push(piece);
            assert(pieces@.map_values(|v: Vec<char>| v@) =~= before.map_values(
                |v: Vec<char>| v@,
            ).push(piece@));
            cur = Vec::new();
        } else {
            cur.push(s[i]);
        }
        i += 1;
    }
    let ghost before = pieces@;
    let piece = cur;
    pieces.push(piece);
    assert(pieces@.map_values(|v: Vec<char>| v@) =~= before.map_values(|v: Vec<char>| v@).push(
        piece@,
    ));
    pieces
}

fn words(s: &Vec<char>) -> (r: Vec<Vec<char>>)
    ensures
        r@.map_values(|v: Vec<char>| v@) == split_whitespace(s@),
{
    let mut ws: Vec<Vec<char>> = Vec::new();
    let mut cur: Vec<char> = Vec::new();
    let mut i: usize = 0;
    assert(ws@.map_values(|v: Vec<char>| v@) =~= seq![]);
    while i < s.len()
        invariant
            i <= s@.len(),
            split_whitespace(s@) == words_from(
                s@,
                i as int,
                ws@.map_values(|v: Vec<char>| v@),
                cur@,
            ),
        decreases s.len() - i,
    {
        if is_whitespace(s[i]) {
            if cur.len() > 0 {
                let ghost before = ws@;
                let word = cur;
                ws.push(word);
                assert(ws@.map_values(|v: Vec<char>| v@) =~= before.map_values(
                    |v: Vec<char>| v@,
                ).push(word@));
                cur = Vec::new();
            } else {
                assert(cur@ =~= seq![]);
            }
        } else {
            cur.push(s[i]);
        }
        i += 1;
    }
    if cur.len() > 0 {
        let ghost before = ws@;
        let word = cur;
        ws.push(word);
        assert(ws@.map_values(|v: Vec<char>| v@) =~= before.map_values(|v: Vec<char>| v@).push(
            word@,
        ));
    }
    ws
}

fn trim_chars(s: &Vec<char>) -> (r: Vec<char>)
    ensures
        r@ == trim(s@),
{
    let mut a: usize = 0;
    assert(s@.subrange(0, s@.len() as int) =~= s@);
    while a < s.len() && is_whitespace(s[a])
        invariant
            a <= s@.len(),
            trim_start(s@) == trim_start(s@.subrange(a as int, s@.len() as int)),
        decreases s.len() - a,
    {
        assert(s@.subrange(a as int, s@.len() as int).drop_first() =~= s@.subrange(
            a + 1,
            s@.len() as int,
        ));
        a += 1;
    }
    let ghost t = s@.subrange(a as int, s@.len() as int);
    assert(trim_start(s@) == t);
    let mut b: usize = s.len();
    while b > a && is_whitespace(s[b - 1])
        invariant
            a <= b <= s@.len(),
            t == s@.subrange(a as int, s@.len() as int),
            trim_end(t) == trim_end(s@.subrange(a as int, b as int)),
        decreases b,
    {
        assert(s@.subrange(a as int, b as int).drop_last() =~= s@.subrange(a as int, b - 1));
        b -= 1;
    }
    let mut r: Vec<char> = Vec::new();
    let mut k = a;
    while k < b
        invariant
            a <= k <= b <= s@.len(),
            r@ =~= s@.subrange(a as int, k as int),
        decreases b - k,
    {
        r.push(s[k]);
        k += 1;
    }
    r
}

/// The class a line describes, if it describes one.
pub fn parse_class(line: &str) -> (r: Option<Class>)
    ensures
        match class_of(line@) {
            Some(c) => r matches Some(v) && v@ == c,
            None => r is None,
        },
{
    let cs = chars_of(line);
    let parts = split_chars(&cs, ':');
    if parts.len() != 2 {
        return None;
    }
    let ghost pv = parts@.map_values(|v: Vec<char>| v@);
    assert(pv[0] == parts@[0]@ && pv[1] == parts@[1]@);
    let name = trim_chars(&parts[0]);
    let field_text = trim_chars(&parts[1]);
    let descs = split_chars(&field_text, ',');
    let ghost dv = descs@.map_values(|v: Vec<char>| v@);
    let mut fields: Vec<Field> = Vec::new();
    let mut k = descs.len();
    assert(fields@.map_values(|f: Field| (f.fd_name@, f.fd_type@)) =~= seq![]);
    while k > 0
        invariant
            k <= descs@.len(),
            dv == descs@.map_values(|v: Vec<char>| v@),
            fields_of(dv, k as int) == Some(fields@.map_values(|f: Field| (f.fd_name@, f.fd_type@))),
            pv == split(line@, ':'),
            pv.len() == 2,
            dv == split(trim(pv[1]), ','),
        decreases k,
    {
        k -= 1;
        let ws = words(&descs[k]);
        let ghost wv = ws@.map_values(|v: Vec<char>| v@);
        if ws.len() != 2 {
            proof {
                assert(fields_of(dv, k as int) is None);
                lemma_fields_of_none(dv, k as int);
            }
            return None;
        }
        let f = Field {
            fd_name: string_from_chars(ws[1].as_slice()),
            fd_type: string_from_chars(ws[0].as_slice()),
        };
        assert(wv[0] == ws@[0]@ && wv[1] == ws@[1]@);
        let ghost before = fields@;
        fields.insert(0, f);
        assert(fields@.map_values(|f: Field| (f.fd_name@, f.fd_type@)) =~= seq![
            (wv[1], wv[0]),
        ] + before.map_values(|f: Field| (f.fd_name@, f.fd_type@)));
    }
    Some(Class { name: string_from_chars(name.as_slice()), fields })
}

proof fn lemma_fields_of_none(descs: Seq<Seq<char>>, k: int)
    requires
        0 <= k <= descs.len(),
        fields_of(descs, k) is None,
    ensures
        fields_of(descs, 0) is None,
    decreases k,
{
    if k > 0 {
        assert(fields_of(descs, k - 1) is None);
        lemma_fields_of_none(descs, k - 1);
    }
}

/// Whether no name occurs twice.
pub open spec fn distinct_names(names: Seq<String>) -> bool {
    forall|a: int, b: int| 0 <= a < b < names.len() ==> #[trigger] names[a]@ != #[trigger] names[b]@
}

/// Whether one of the names is `c`.
pub open spec fn holds_name(names: Seq<String>, c: Seq<char>) -> bool {
    exists|a: int| 0 <= a < names.len() && #[trigger] names[a]@ == c
}

/// Whether one of the classes is named `c`.
pub open spec fn class_named(cs: Seq<ClassV>, c: Seq<char>) -> bool {
    exists|a: int| 0 <= a < cs.len() && #[trigger] cs[a].name == c
}

/// The classes the lines describe, and the set of their names; none if a line describes
/// none.
pub fn try_parse_classes(lines: &[&str]) -> (r: Option<(Vec<Class>, Vec<String>)>)
    ensures
        match classes_of(lines@.map_values(|l: &str| l@), 0) {
            Some(cs) => r matches Some((v, names)) && classes_view(v@) == cs && distinct_names(
                names@,
            ) && forall|c: Seq<char>| #[trigger] holds_name(names@, c) <==> class_named(cs, c),
            None => r is None,
        },
{
    let ghost lv = lines@.map_values(|l: &str| l@);
    let mut classes: Vec<Class> = Vec::new();
    let mut k = lines.len();
    assert(classes_view(classes@) =~= seq![]);
    while k > 0
        invariant
            k <= lines@.len(),
            lv == lines@.map_values(|l: &str| l@),
            classes_of(lv, k as int) == Some(classes_view(classes@)),
        decreases k,
    {
        k -= 1;
        match parse_class(lines[k]) {
            Some(c) => {
                let ghost before = classes@;
                classes.insert(0, c);
                assert(classes_view(classes@) =~= seq![c@] + classes_view(before));
            },
            None => {
                proof {
                    assert(classes_of(lv, k as int) is None);
                    lemma_classes_of_none(lv, k as int);
                }
                return None;
            },
        }
    }
    let mut names: Vec<String> = Vec::new();
    let mut i: usize = 0;
    let ghost cv = classes_view(classes@);
    assert(cv.take(0) =~= seq![]);
    while i < classes.len()
        invariant
            i <= classes@.len(),
            cv == classes_view(classes@),
            distinct_names(names@),
            forall|c: Seq<char>| #[trigger] holds_name(names@, c) <==> class_named(cv.take(i as int), c),
        decreases classes.len() - i,
    {
        let name = &classes[i].name;
        let mut found = false;
        let mut j: usize = 0;
        while j < names.len()
            invariant
                j <= names@.len(),
                found <==> holds_name(names@.take(j as int), name@),
            decreases names.len() - j,
        {
            assert(names@.take(j + 1).drop_last() =~= names@.take(j as int));
            if str_eq(names[j].as_str(), name.as_str()) {
                found = true;
                assert(names@.take(j + 1)[j as int]@ == name@);
            }
            proof {
                if holds_name(names@.take(j + 1), name@) {
                    let a = choose|a: int| 0 <= a < j + 1 && #[trigger] names@.take(j + 1)[a]@ == name@;
                    if a < j {
                        assert(names@.take(j as int)[a] == names@.take(j + 1)[a]);
                    }
                }
                if holds_name(names@.take(j as int), name@) {
                    let a = choose|a: int| 0 <= a < j && #[trigger] names@.take(j as int)[a]@ == name@;
                    assert(names@.take(j + 1)[a] == names@.take(j as int)[a]);
                }
            }
            j += 1;
        }
        assert(cv[i as int].name == name@);
        assert(names@.take(j as int) =~= names@);
        let ghost old_names = names@;
        if !found {
            names.push(name.clone());
        }
        proof {
            assert(cv.take(i + 1).drop_last() =~= cv.take(i as int));
            assert forall|c: Seq<char>| #[trigger] holds_name(names@, c) <==> class_named(
                cv.take(i + 1),
                c,
            ) by {
                let t0 = cv.take(i as int);
                let t1 = cv.take(i + 1);
                assert(t1[i as int].name == name@);
                if holds_name(names@, c) {
                    let a = choose|a: int| 0 <= a < names@.len() && #[trigger] names@[a]@ == c;
                    if a < old_names.len() {
                        assert(old_names[a] == names@[a]);
                        assert(holds_name(old_names, c));
                        assert(class_named(t0, c));
                        let b = choose|b: int| 0 <= b < t0.len() && #[trigger] t0[b].name == c;
                        assert(t1[b] == t0[b]);
                    }
                }
                if class_named(t1, c) {
                    let a = choose|a: int| 0 <= a < t1.len() && #[trigger] t1[a].name == c;
                    if a < i {
                        assert(t0[a] == t1[a]);
                        assert(class_named(t0, c));
                        assert(holds_name(old_names, c));
                        let b = choose|b: int| 0 <= b < old_names.len() && #[trigger] old_names[b]@ == c;
                        assert(names@[b] == old_names[b]);
                    } else if found {
                        assert(holds_name(old_names, c));
                        let b = choose|b: int| 0 <= b < old_names.len() && #[trigger] old_names[b]@ == c;
                        assert(names@[b] == old_names[b]);
                    } else {
                        assert(names@[names@.len() - 1]@ == c);
                    }
                }
            }
            assert forall|x: int, y: int| 0 <= x < y < names@.len() implies #[trigger] names@[x]@
                != #[trigger] names@[y]@ by {
                if y == old_names.len() {
                    assert(names@[x] == old_names[x]);
                    if names@[x]@ == names@[y]@ {
                        assert(holds_name(old_names, name@));
                    }
                } else {
                    assert(names@[x] == old_names[x] && names@[y] == old_names[y]);
                }
            }
        }
        i += 1;
    }
    assert(cv.take(classes@.len() as int) =~= cv);
    Some((classes, names))
}

proof fn lemma_classes_of_none(lines: Seq<Seq<char>>, k: int)
    requires
        0 <= k <= lines.len(),
        classes_of(lines, k) is None,
    ensures
        classes_of(lines, 0) is None,
    decreases k,
{
    if k > 0 {
        assert(classes_of(lines, k - 1) is None);
        lemma_classes_of_none(lines, k - 1);
    }
}

/// The classes of the known node types, and the set of their names.
pub fn parse_classes() -> (r: Option<(Vec<Class>, Vec<String>)>)
    ensures
        match classes_of(ast_descriptions(), 0) {
            Some(cs) => r matches Some((v, names)) && classes_view(v@) == cs && distinct_names(
                names@,
            ) && forall|c: Seq<char>| #[trigger] holds_name(names@, c) <==> class_named(cs, c),
            None => r is None,
        },
{
    let vals = ast_vals();
    try_parse_classes(vals.as_slice())
}

/// `str::to_lowercase`'s result: the text's lower case by Unicode's rules, as the standard
/// library gives it.
pub uninterp spec fn lowercase(s: Seq<char>) -> Seq<char>;

/// `str::to_lowercase`: the text in lower case.
#[verifier::external_body]
fn to_lowercase(s: &str) -> (r: String)
    ensures
        r@ == lowercase(s@),
{
    s.to_lowercase()
}

/// The declaration of a field: a boxed type for `Expr`, the type itself otherwise.
pub open spec fn struct_field_text(f: (Seq<char>, Seq<char>)) -> Seq<char> {
    if f.1 == "Expr"@ {
        "    "@ + f.0 + ": Box<"@ + f.1 + ">,\n"@
    } else {
        "    "@ + f.0 + ": "@ + f.1 + ",\n"@
    }
}

pub open spec fn struct_fields_text(fs: Seq<(Seq<char>, Seq<char>)>) -> Seq<char>
    decreases fs.len(),
{
    if fs.len() == 0 {
        seq![]
    } else {
        struct_fields_text(fs.drop_last()) + struct_field_text(fs.last())
    }
}

/// The struct definitions of the classes.
pub open spec fn structs_text(cs: Seq<ClassV>) -> Seq<char>
    decreases cs.len(),
{
    if cs.len() == 0 {
        seq![]
    } else {
        structs_text(cs.drop_last()) + "pub struct "@ + cs.last().name + " {\n"@
            + struct_fields_text(cs.last().fields) + "}\n\n"@
    }
}

pub open spec fn enum_variants_text(cs: Seq<ClassV>) -> Seq<char>
    decreases cs.len(),
{
    if cs.len() == 0 {
        seq![]
    } else {
        enum_variants_text(cs.drop_last()) + "    "@ + cs.last().name + "("@ + cs.last().name
            + "),\n"@
    }
}

/// The enum with one variant per class.
pub open spec fn enum_text(cs: Seq<ClassV>) -> Seq<char> {
    "pub enum Expr{\n"@ + enum_variants_text(cs) + "}\n\n"@
}

/// The visitor's methods, one per class, each named after the lower-cased name beside it.
pub open spec fn visitor_methods_text(cs: Seq<ClassV>, lows: Seq<Seq<char>>) -> Seq<char>
    decreases cs.len(),
{
    if cs.len() == 0 {
        seq![]
    } else {
        visitor_methods_text(cs.drop_last(), lows.drop_last()) + "    fn visit_"@ + lows.last()
            + "(&mut self, expr: &"@ + cs.last().name + ") -> R;\n"@
    }
}

/// The arms of `accept`, one per class, each calling the method named after the lower-cased
/// name beside it.
pub open spec fn accept_arms_text(cs: Seq<ClassV>, lows: Seq<Seq<char>>) -> Seq<char>
    decreases cs.len(),
{
    if cs.len() == 0 {
        seq![]
    } else {
        accept_arms_text(cs.drop_last(), lows.drop_last()) + "            Expr::"@ + cs.last().name
            + "(e) => visitor.visit_"@ + lows.last() + "(e),\n"@
    }
}

/// The visitor trait, and the `accept` method that dispatches to it, with the methods
/// named after the given lower-cased names.
pub open spec fn traits_text_named(cs: Seq<ClassV>, lows: Seq<Seq<char>>) -> Seq<char> {
    "pub trait Visitor<R> {\n"@ + visitor_methods_text(cs, lows) + "}\n\n"@ + "impl Expr {\n"@
        + "    pub fn accept<R>(&self, visitor: &mut impl Visitor<R>) -> R {\n"@
        + "        match self{\n"@ + accept_arms_text(cs, lows) + "        }\n"@ + "    }\n"@
        + "}\n\n"@
}

/// The lower-cased names of the classes.
pub open spec fn lower_names(cs: Seq<ClassV>) -> Seq<Seq<char>> {
    cs.map_values(|c: ClassV| lowercase(c.name))
}

/// The visitor trait, and the `accept` method that dispatches to it.
pub open spec fn traits_text(cs: Seq<ClassV>) -> Seq<char> {
    traits_text_named(cs, lower_names(cs))
}

pub open spec fn new_params_text(fs: Seq<(Seq<char>, Seq<char>)>) -> Seq<char>
    decreases fs.len(),
{
    if fs.len() == 0 {
        seq![]
    } else {
        new_params_text(fs.drop_last()) + fs.last().0 + ": "@ + fs.last().1 + ","@
    }
}

pub open spec fn new_inits_text(fs: Seq<(Seq<char>, Seq<char>)>) -> Seq<char>
    decreases fs.len(),
{
    if fs.len() == 0 {
        seq![]
    } else {
        new_inits_text(fs.drop_last()) + if fs.last().1 == "Expr"@ {
            "            "@ + fs.last().0 + ": Box::new("@ + fs.last().0 + "),\n"@
        } else {
            "            "@ + fs.last().0 + ",\n"@
        }
    }
}

/// A constructor `new` for each class.
pub open spec fn news_text(cs: Seq<ClassV>) -> Seq<char>
    decreases cs.len(),
{
    if cs.len() == 0 {
        seq![]
    } else {
        news_text(cs.drop_last()) + "impl "@ + cs.last().name + " {\n"@ + "    pub fn new("@
            + new_params_text(cs.last().fields) + ") -> Self {\n"@ + "        Self{\n"@
            + new_inits_text(cs.last().fields) + "        }\n"@ + "    }\n"@ + "}\n\n"@
    }
}

/// The struct definitions of the classes.
pub fn generate_structs(classes: &Vec<Class>) -> (r: String)
    ensures
        r@ == structs_text(classes_view(classes@)),
{
    let ghost cv = classes_view(classes@);
    let mut out = String::new();
    let mut i: usize = 0;
    while i < classes.len()
        invariant
            i <= classes@.len(),
            cv == classes_view(classes@),
            out@ == structs_text(cv.take(i as int)),
        decreases classes.len() - i,
    {
        let c = &classes[i];
        out.append("pub struct ");
        out.append(c.name.as_str());
        out.append(" {\n");
        let ghost fv = c@.fields;
        let ghost head = out@;
        let mut k: usize = 0;
        while k < c.fields.len()
            invariant
                k <= c.fields@.len(),
                fv == c@.fields,
                out@ == head + struct_fields_text(fv.take(k as int)),
            decreases c.fields.len() - k,
        {
            let f = &c.fields[k];
            if str_eq(f.fd_type.as_str(), "Expr") {
                out.append("    ");
                out.append(f.fd_name.as_str());
                out.append(": Box<");
                out.append(f.fd_type.as_str());
                out.append(">,\n");
            } else {
                out.append("    ");
                out.append(f.fd_name.as_str());
                out.append(": ");
                out.append(f.fd_type.as_str());
                out.append(",\n");
            }
            assert(fv.take(k + 1).drop_last() =~= fv.take(k as int));
            assert(fv[k as int] == (f.fd_name@, f.fd_type@));
            k += 1;
        }
        assert(fv.take(k as int) =~= fv);
        out.append("}\n\n");
        assert(cv.take(i + 1).drop_last() =~= cv.take(i as int));
        i += 1;
    }
    assert(cv.take(i as int) =~= cv);
    out
}

/// The enum with one variant per class.
pub fn generate_enum(classes: &Vec<Class>) -> (r: String)
    ensures
        r@ == enum_text(classes_view(classes@)),
{
    let ghost cv = classes_view(classes@);
    let mut out = String::new();
    out.append("pub enum Expr{\n");
    let ghost head = out@;
    let mut i: usize = 0;
    while i < classes.len()
        invariant
            i <= classes@.len(),
            cv == classes_view(classes@),
            out@ == head + enum_variants_text(cv.take(i as int)),
        decreases classes.len() - i,
    {
        let c = &classes[i];
        out.append("    ");
        out.append(c.name.as_str());
        out.append("(");
        out.append(c.name.as_str());
        out.append("),\n");
        assert(cv.take(i + 1).drop_last() =~= cv.take(i as int));
        i += 1;
    }
    assert(cv.take(i as int) =~= cv);
    out.append("}\n\n");
    out
}

/// The visitor trait, and the `accept` method that dispatches to it, with the method for
/// each class named after the lower-cased name at the same place in `lower_names`.
pub fn generate_traits_named(classes: &[Class], lower_names: &[String]) -> (r: String)
    requires
        lower_names@.len() == classes@.len(),
    ensures
        r@ == traits_text_named(
            classes@.map_values(|c: Class| c@),
            lower_names@.map_values(|s: String| s@),
        ),
{
    let ghost cv = classes@.map_values(|c: Class| c@);
    let ghost lv = lower_names@.map_values(|s: String| s@);
    let mut out = String::new();
    out.append("pub trait Visitor<R> {\n");
    let ghost head = out@;
    let mut i: usize = 0;
    while i < classes.len()
        invariant
            i <= classes@.len(),
            lower_names@.len() == classes@.len(),
            cv == classes@.map_values(|c: Class| c@),
            lv == lower_names@.map_values(|s: String| s@),
            out@ == head + visitor_methods_text(cv.take(i as int), lv.take(i as int)),
        decreases classes.len() - i,
    {
        let c = &classes[i];
        out.append("    fn visit_");
        out.append(lower_names[i].as_str());
        out.append("(&mut self, expr: &");
        out.append(c.name.as_str());
        out.append(") -> R;\n");
        assert(cv.take(i + 1).drop_last() =~= cv.take(i as int));
        assert(lv.take(i + 1).drop_last() =~= lv.take(i as int));
        i += 1;
    }
    assert(cv.take(i as int) =~= cv);
    assert(lv.take(i as int) =~= lv);
    out.append("}\n\n");
    out.append("impl Expr {\n");
    out.append("    pub fn accept<R>(&self, visitor: &mut impl Visitor<R>) -> R {\n");
    out.append("        match self{\n");
    let ghost head2 = out@;
    let mut j: usize = 0;
    while j < classes.len()
        invariant
            j <= classes@.len(),
            lower_names@.len() == classes@.len(),
            cv == classes@.map_values(|c: Class| c@),
            lv == lower_names@.map_values(|s: String| s@),
            out@ == head2 + accept_arms_text(cv.take(j as int), lv.take(j as int)),
        decreases classes.len() - j,
    {
        let c = &classes[j];
        out.append("            Expr::");
        out.append(c.name.as_str());
        out.append("(e) => visitor.visit_");
        out.append(lower_names[j].as_str());
        out.append("(e),\n");
        assert(cv.take(j + 1).drop_last() =~= cv.take(j as int));
        assert(lv.take(j + 1).drop_last() =~= lv.take(j as int));
        j += 1;
    }
    assert(cv.take(j as int) =~= cv);
    assert(lv.take(j as int) =~= lv);
    out.append("        }\n");
    out.append("    }\n");
    out.append("}\n\n");
    out
}

/// The visitor trait, and the `accept` method that dispatches to it; each method is named
/// after its class's name in lower case.
pub fn generate_traits(classes: &[Class]) -> (r: String)
    ensures
        r@ == traits_text(classes@.map_values(|c: Class| c@)),
{
    let ghost cv = classes@.map_values(|c: Class| c@);
    let mut lowers: Vec<String> = Vec::new();
    let mut i: usize = 0;
    while i < classes.len()
        invariant
            i <= classes@.len(),
            cv == classes@.map_values(|c: Class| c@),
            lowers@.len() == i,
            forall|k: int| 0 <= k < i ==> (#[trigger] lowers@[k])@ == lowercase(cv[k].name),
        decreases classes.len() - i,
    {
        let lower = to_lowercase(classes[i].name.as_str());
        lowers.push(lower);
        i += 1;
    }
    assert(lowers@.map_values(|s: String| s@) =~= lower_names(cv));
    generate_traits_named(classes, lowers.as_slice())
}

/// A constructor `new` for each class.
pub fn generate_new(classes: &Vec<Class>) -> (r: String)
    ensures
        r@ == news_text(classes_view(classes@)),
{
    let ghost cv = classes_view(classes@);
    let mut out = String::new();
    let mut i: usize = 0;
    while i < classes.len()
        invariant
            i <= classes@.len(),
            cv == classes_view(classes@),
            out@ == news_text(cv.take(i as int)),
        decreases classes.len() - i,
    {
        let c = &classes[i];
        let ghost fv = c@.fields;
        out.append("impl ");
        out.append(c.name.as_str());
        out.append(" {\n");
        out.append("    pub fn new(");
        let ghost head = out@;
        let mut k: usize = 0;
        while k < c.fields.len()
            invariant
                k <= c.fields@.len(),
                fv == c@.fields,
                out@ == head + new_params_text(fv.take(k as int)),
            decreases c.fields.len() - k,
        {
            let f = &c.fields[k];
            out.append(f.fd_name.as_str());
            out.append(": ");
            out.append(f.fd_type.as_str());
            out.append(",");
            assert(fv.take(k + 1).drop_last() =~= fv.take(k as int));
            assert(fv[k as int] == (f.fd_name@, f.fd_type@));
            k += 1;
        }
        assert(fv.take(k as int) =~= fv);
        out.append(") -> Self {\n");
        out.append("        Self{\n");
        let ghost head2 = out@;
        let mut m: usize = 0;
        while m < c.fields.len()
            invariant
                m <= c.fields@.len(),
                fv == c@.fields,
                out@ == head2 + new_inits_text(fv.take(m as int)),
            decreases c.fields.len() - m,
        {
            let f = &c.fields[m];
            if str_eq(f.fd_type.as_str(), "Expr") {
                out.append("            ");
                out.append(f.fd_name.as_str());
                out.append(": Box::new(");
                out.append(f.fd_name.as_str());
                out.append("),\n");
            } else {
                out.append("            ");
                out.append(f.fd_name.as_str());
                out.append(",\n");
            }
            assert(fv.take(m + 1).drop_last() =~= fv.take(m as int));
            assert(fv[m as int] == (f.fd_name@, f.fd_type@));
            m += 1;
        }
        assert(fv.take(m as int) =~= fv);
        out.append("        }\n");
        out.append("    }\n");
        out.append("}\n\n");
        assert(cv.take(i + 1).drop_last() =~= cv.take(i as int));
        i += 1;
    }
    assert(cv.take(i as int) =~= cv);
    out
}

} // verus!
