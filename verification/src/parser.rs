//! The parser: turns source text into an expression, as the grammar of
//! [`crate::syntax`] says.

use crate::ast::{
    exprs_view, lemma_exprs_view_push, lemma_parts_view_push, parts_view, Bindings, ExprView,
    NixBinaryOp, NixExpr, NixFloat, NixStringPart, NixUnaryOp, NixValue, PartView,
};
use crate::bindings::{insert_entry, lemma_index_of, lemma_index_of_is, Entries};
use crate::grammar::{
    char_is_digit, char_is_ident_start, lemma_dotted_end_bounds, lemma_scan_bounds, read_integer,
    scan, scan_class, scan_dotted, scan_plain, skip_blank, skip_blanks, syntax, word_is,
    CharClass, ParseError, ParseErrorKind, Parsed, Rule,
};
use crate::path::{resolve_path, view_opt};
use crate::syntax::{
    apply_prefix, at, atom, attr_set, bindings, expression, inherit, inherit_names, inherited,
    insert_path_from, list_items, name_at, number, op_expr, op_rest, path_literal, path_starts,
    prefix_ops, search_path, source, split_dots, split_from, string_expr, string_parts, term,
    word, Closer, PathEnv,
};
use crate::text::{chars_of, string_of};
use vstd::prelude::*;
use vstd::string::StringExecFns;

verus! {

/// The views of the names of a path.
pub open spec fn keys_view(keys: Seq<String>) -> Seq<Seq<char>> {
    keys.map_values(|k: String| k@)
}

/// What a function that parses an expression returns, as the grammar states it.
pub open spec fn parsed_expr(r: Result<(NixExpr, usize), ParseError>) -> Parsed<ExprView> {
    match r {
        Ok((e, next)) => Parsed::Done { value: e@, next: next as int },
        Err(e) => Parsed::Failed { error: e@ },
    }
}

/// What a function that parses bindings returns, as the grammar states it.
pub open spec fn parsed_entries(r: Result<(Bindings, usize), ParseError>) -> Parsed<Entries> {
    match r {
        Ok((b, next)) => Parsed::Done { value: b@, next: next as int },
        Err(e) => Parsed::Failed { error: e@ },
    }
}

/// A syntax error in `rule` at `position`.
pub fn syntax_error(rule: Rule, position: usize) -> (e: ParseError)
    ensures
        e@ == syntax(rule, position as int),
{
    ParseError { kind: ParseErrorKind::Syntax, rule, position }
}

/// Applies prefix operators, given in the order they are written, to an
/// operand: from the one closest to the operand outwards.
pub fn apply_prefix_ops(ops: &Vec<NixUnaryOp>, operand: NixExpr) -> (r: NixExpr)
    ensures
        r@ == apply_prefix(ops@, operand@),
{
    let mut current = operand;
    let mut i = ops.len();
    while i > 0
        invariant
            i <= ops.len(),
            current@ == apply_prefix(ops@.skip(i as int), operand@),
        decreases i,
    {
        i -= 1;
        proof {
            assert(ops@.skip(i as int).drop_first() =~= ops@.skip(i + 1));
        }
        current = NixExpr::UnaryOp { op: ops[i], expr: Box::new(current) };
    }
    assert(ops@.skip(0) =~= ops@);
    current
}

/// The expression that the parts of a string literal stand for.
pub fn string_from_parts(parts: Vec<NixStringPart>) -> (r: NixExpr)
    ensures
        r@ == string_expr(parts_view(parts@)),
{
    proof {
        crate::ast::lemma_parts_view(parts@);
    }
    let single_literal = parts.len() == 1 && match &parts[0] {
        NixStringPart::Literal(_) => true,
        NixStringPart::Interpolation(_) => false,
    };
    if single_literal {
        let mut parts = parts;
        match parts.pop() {
            Some(NixStringPart::Literal(text)) => NixExpr::Value(NixValue::String(text)),
            _ => {
                assert(false);
                NixExpr::InterpolatedString(parts)
            },
        }
    } else {
        NixExpr::InterpolatedString(parts)
    }
}

/// Binds `value` at `path[from..]` in `attrset`, through nested attribute
/// sets that are made where they are missing. Returns whether this could be
/// done; where a name on the way is bound to something that is no attribute
/// set, nothing changes.
pub fn insert_at_path(attrset: &mut Bindings, path: &Vec<String>, from: usize, value: NixExpr) -> (ok:
    bool)
    requires
        from < path@.len(),
    ensures
        match insert_path_from(old(attrset)@, keys_view(path@), from as int, value@) {
            Some(entries) => ok && final(attrset)@ == entries,
            None => !ok && final(attrset)@ == old(attrset)@,
        },
    decreases path@.len() - from,
{
    let key = path[from].clone();
    assert(keys_view(path@)[from as int] == key@);
    if from == path.len() - 1 {
        attrset.insert(key, value);
        return true;
    }
    let existing: u8 = match attrset.get(key.as_str()) {
        None => 0,
        Some(NixExpr::AttrSet { .. }) => 1,
        Some(_) => 2,
    };
    if existing == 2 {
        false
    } else if existing == 0 {
        let mut inner = Bindings::new();
        let ok = insert_at_path(&mut inner, path, from + 1, value);
        if ok {
            attrset.insert(key, NixExpr::AttrSet { recursive: false, bindings: inner });
        }
        ok
    } else {
        let ghost before = attrset@;
        proof {
            lemma_index_of(before, key@);
        }
        match attrset.insert(key.clone(), NixExpr::Value(NixValue::Null)) {
            Some(NixExpr::AttrSet { recursive, bindings }) => {
                let mut inner = bindings;
                let ghost held = attrset@;
                let ok = insert_at_path(&mut inner, path, from + 1, value);
                proof {
                    let i = crate::bindings::index_of(before, key@)->0;
                    lemma_index_of_is(held, key@, i);
                    let put = NixExpr::AttrSet { recursive, bindings: inner }@;
                    assert(insert_entry(held, key@, put) =~= insert_entry(before, key@, put));
                    if !ok {
                        assert(insert_entry(before, key@, put) =~= before);
                    }
                }
                attrset.insert(key, NixExpr::AttrSet { recursive, bindings: inner });
                ok
            },
            _ => {
                assert(false);
                false
            },
        }
    }
}

/// A parser over one input: the characters of the source text, and the
/// directories that path literals are resolved against.
pub struct NixParser {
    chars: Vec<char>,
    root: String,
    home: Option<String>,
}

impl NixParser {
    /// The source text.
    pub closed spec fn input(&self) -> Seq<char> {
        self.chars@
    }

    /// The directories that path literals are resolved against.
    pub closed spec fn env(&self) -> PathEnv {
        PathEnv {
            root: self.root@,
            home: text_view(self.home),
        }
    }

    /// A parser for `input`, with relative paths taken from `root` and `~/`
    /// paths from `home`.
    pub fn new(input: &str, root: &str, home: Option<&str>) -> (p: Self)
        ensures
            p.input() == input@,
            p.env() == (PathEnv { root: root@, home: view_opt(home) }),
    {
        NixParser {
            chars: chars_of(input),
            root: String::from_str(root),
            home: match home {
                Some(h) => Some(String::from_str(h)),
                None => None,
            },
        }
    }

    /// The number of characters of the input.
    pub fn len(&self) -> (n: usize)
        ensures
            n == self.input().len(),
    {
        self.chars.len()
    }

    /// The text of the input from `from` up to `to`.
    fn text(&self, from: usize, to: usize) -> (t: String)
        requires
            from <= to <= self.input().len(),
        ensures
            t@ == word(self.input(), from as int, to as int),
    {
        string_of(&self.chars, from, to)
    }

    /// Whether a name can start at `pos`.
    fn is_name_at(&self, pos: usize) -> (b: bool)
        ensures
            b == name_at(self.input(), pos as int),
    {
        pos < self.chars.len() && char_is_ident_start(self.chars[pos])
    }

    /// Parses the number at `pos`, where a digit stands.
    pub fn parse_number(&self, pos: usize) -> (r: Result<(NixExpr, usize), ParseError>)
        requires
            pos <= self.input().len(),
        ensures
            parsed_expr(r) == number(self.input(), pos as int),
            r matches Ok((_, next)) ==> scan(self.input(), pos as int, CharClass::Digit) <= next
                <= self.input().len(),
    {
        let n = self.chars.len();
        let e = scan_class(&self.chars, pos, CharClass::Digit);
        if e < n && self.chars[e] == '.' && e + 1 < n && char_is_digit(self.chars[e + 1]) {
            let end = scan_class(&self.chars, e + 1, CharClass::Digit);
            let text = self.text(pos, end);
            Ok((NixExpr::Value(NixValue::Float(NixFloat::Literal(text))), end))
        } else {
            proof {
                lemma_scan_bounds(self.chars@, pos as int, CharClass::Digit);
            }
            match read_integer(&self.chars, pos, e) {
                Some(v) => Ok((NixExpr::Value(NixValue::Int(v)), e)),
                None => Err(
                    ParseError {
                        kind: ParseErrorKind::IntegerOverflow,
                        rule: Rule::Integer,
                        position: pos,
                    },
                ),
            }
        }
    }

    /// Parses the search path at `pos`, where `<` stands.
    pub fn parse_search_path(&self, pos: usize) -> (r: Result<(NixExpr, usize), ParseError>)
        requires
            pos < self.input().len(),
        ensures
            parsed_expr(r) == search_path(self.input(), pos as int),
            r matches Ok((_, next)) ==> pos < next <= self.input().len(),
    {
        let n = self.chars.len();
        let e = scan_class(&self.chars, pos + 1, CharClass::Path);
        if e > pos + 1 && e < n && self.chars[e] == '>' {
            Ok((NixExpr::SearchPath(self.text(pos + 1, e)), e + 1))
        } else {
            Err(syntax_error(Rule::SearchPath, e))
        }
    }

    /// Whether a path literal starts at `pos`.
    fn is_path_at(&self, pos: usize) -> (b: bool)
        requires
            pos < self.input().len(),
        ensures
            b == path_starts(self.input(), pos as int),
    {
        let n = self.chars.len();
        let c = self.chars[pos];
        if c == '/' {
            true
        } else if c == '~' {
            pos + 1 < n && self.chars[pos + 1] == '/'
        } else if c == '.' {
            pos + 1 < n && (self.chars[pos + 1] == '/' || (self.chars[pos + 1] == '.' && pos + 2
                < n && self.chars[pos + 2] == '/'))
        } else {
            false
        }
    }

    /// Parses and resolves the path literal at `pos`.
    pub fn parse_path(&self, pos: usize) -> (r: Result<(NixExpr, usize), ParseError>)
        requires
            pos < self.input().len(),
        ensures
            parsed_expr(r) == path_literal(self.input(), self.env(), pos as int),
            r matches Ok((_, next)) ==> pos < next <= self.input().len(),
    {
        let n = self.chars.len();
        if !self.is_path_at(pos) {
            return Err(syntax_error(Rule::Path, pos));
        }
        let e = scan_class(&self.chars, pos + 1, CharClass::Path);
        let text = self.text(pos, e);
        let home: Option<&str> = match &self.home {
            Some(h) => Some(h.as_str()),
            None => None,
        };
        match resolve_path(text.as_str(), self.root.as_str(), home) {
            Some(p) => Ok((NixExpr::Value(NixValue::Path(p)), e)),
            None => Err(
                ParseError {
                    kind: ParseErrorKind::NoHomeDirectory,
                    rule: Rule::Path,
                    position: pos,
                },
            ),
        }
    }

    /// The names of the dotted name that runs from `from` up to `to`.
    pub fn split_name(&self, from: usize, to: usize) -> (keys: Vec<String>)
        requires
            from <= to <= self.input().len(),
        ensures
            keys_view(keys@) == split_dots(word(self.input(), from as int, to as int)),
            keys@.len() > 0,
    {
        let ghost name = word(self.input(), from as int, to as int);
        let mut keys: Vec<String> = Vec::new();
        let mut start = from;
        let mut i = from;
        assert(keys_view(keys@) =~= Seq::<Seq<char>>::empty());
        while i < to
            invariant
                from <= start <= i <= to <= self.input().len(),
                name == word(self.input(), from as int, to as int),
                split_dots(name) == split_from(name, start - from, i - from, keys_view(keys@)),
            decreases to - i,
        {
            if self.chars[i] == '.' {
                let key = self.text(start, i);
                proof {
                    assert(key@ =~= name.subrange(start - from, i - from));
                    assert(keys_view(keys@.push(key)) =~= keys_view(keys@).push(key@));
                }
                keys.push(key);
                start = i + 1;
            }
            i += 1;
        }
        let key = self.text(start, to);
        proof {
            assert(key@ =~= name.subrange(start - from, name.len() as int));
            assert(keys_view(keys@.push(key)) =~= keys_view(keys@).push(key@));
        }
        keys.push(key);
        keys
    }

    /// The reference that `inherit` binds `name` to.
    fn inherited_ref(scope: &Option<String>, name: &String) -> (r: NixExpr)
        ensures
            r@ == inherited(text_view(*scope), name@),
    {
        match scope {
            Some(sc) => {
                let mut target = sc.clone();
                proof {
                    reveal_strlit(".");
                    assert("."@ =~= seq!['.']);
                }
                target.append(".");
                target.append(name.as_str());
                NixExpr::Ref(target)
            },
            None => NixExpr::Ref(name.clone()),
        }
    }

    /// Parses the words of an `inherit` binding from `pos` up to its `;` and
    /// binds each in `acc`.
    fn parse_inherit_names(&self, pos: usize, scope: Option<String>, acc: Bindings) -> (r: Result<
        (Bindings, usize),
        ParseError,
    >)
        requires
            pos <= self.input().len(),
        ensures
            parsed_entries(r) == inherit_names(self.input(), pos as int, text_view(scope), acc@),
            r matches Ok((_, next)) ==> pos < next <= self.input().len(),
    {
        let n = self.chars.len();
        let mut bound = acc;
        let mut at_pos = pos;
        loop
            invariant
                pos <= at_pos <= n,
                n == self.input().len(),
                inherit_names(self.input(), pos as int, text_view(scope), acc@) == inherit_names(
                    self.input(),
                    at_pos as int,
                    text_view(scope),
                    bound@,
                ),
            decreases n - at_pos,
        {
            let p = skip_blanks(&self.chars, at_pos);
            if p < n && self.chars[p] == ';' {
                return Ok((bound, p + 1));
            }
            if !self.is_name_at(p) {
                return Err(syntax_error(Rule::InheritBinding, p));
            }
            let e = scan_class(&self.chars, p, CharClass::Ident);
            proof {
                lemma_scan_bounds(self.chars@, p as int, CharClass::Ident);
            }
            let name = self.text(p, e);
            let target = Self::inherited_ref(&scope, &name);
            bound.insert(name, target);
            at_pos = e;
        }
    }

    /// Parses an `inherit` binding after its keyword, which ends at `pos`, and
    /// binds its words in `acc`.
    pub fn parse_inherit(&self, pos: usize, acc: Bindings) -> (r: Result<
        (Bindings, usize),
        ParseError,
    >)
        requires
            pos <= self.input().len(),
        ensures
            parsed_entries(r) == inherit(self.input(), pos as int, acc@),
            r matches Ok((_, next)) ==> pos < next <= self.input().len(),
    {
        let n = self.chars.len();
        let p = skip_blanks(&self.chars, pos);
        if p < n && self.chars[p] == '(' {
            let q = skip_blanks(&self.chars, p + 1);
            if !self.is_name_at(q) {
                return Err(syntax_error(Rule::InheritBinding, q));
            }
            let e = scan_dotted(&self.chars, q);
            let r = skip_blanks(&self.chars, e);
            if r < n && self.chars[r] == ')' {
                let scope = self.text(q, e);
                self.parse_inherit_names(r + 1, Some(scope), acc)
            } else {
                Err(syntax_error(Rule::InheritBinding, r))
            }
        } else {
            self.parse_inherit_names(pos, None, acc)
        }
    }

    /// Parses the expression at or after `pos`.
    pub fn parse_expression(&self, pos: usize) -> (r: Result<(NixExpr, usize), ParseError>)
        requires
            pos <= self.input().len(),
        ensures
            parsed_expr(r) == expression(self.input(), self.env(), pos as int),
            r matches Ok((_, next)) ==> pos < next <= self.input().len(),
        decreases self.input().len() - pos, 4nat,
    {
        let n = self.chars.len();
        let p = skip_blanks(&self.chars, pos);
        let e = scan_dotted(&self.chars, p);
        proof {
            lemma_dotted_end_bounds(self.chars@, p as int);
        }
        if self.is_name_at(p) && word_is(&self.chars, p, e, "let") {
            match self.parse_bindings(e, Bindings::new(), Closer::In) {
                Ok((block, next)) => match self.parse_expression(next) {
                    Ok((body, end)) => Ok(
                        (NixExpr::LetIn { bindings: block, body: Box::new(body) }, end),
                    ),
                    Err(err) => Err(err),
                },
                Err(err) => Err(err),
            }
        } else if self.is_name_at(p) && word_is(&self.chars, p, e, "with") {
            match self.parse_expression(e) {
                Ok((environment, next)) => {
                    let q = skip_blanks(&self.chars, next);
                    if q < n && self.chars[q] == ';' {
                        match self.parse_expression(q + 1) {
                            Ok((body, end)) => Ok(
                                (
                                    NixExpr::With {
                                        environment: Box::new(environment),
                                        body: Box::new(body),
                                    },
                                    end,
                                ),
                            ),
                            Err(err) => Err(err),
                        }
                    } else {
                        Err(syntax_error(Rule::WithExpr, q))
                    }
                },
                Err(err) => Err(err),
            }
        } else {
            self.parse_op_expr(p)
        }
    }

    /// Parses a term and the infix operators and terms that follow it, and
    /// folds them to the left.
    #[verifier::loop_isolation(false)]
    pub fn parse_op_expr(&self, pos: usize) -> (r: Result<(NixExpr, usize), ParseError>)
        requires
            pos <= self.input().len(),
        ensures
            parsed_expr(r) == op_expr(self.input(), self.env(), pos as int),
            r matches Ok((_, next)) ==> pos < next <= self.input().len(),
        decreases self.input().len() - pos, 3nat,
    {
        let n = self.chars.len();
        let (first, after_first) = match self.parse_term(pos) {
            Ok(found) => found,
            Err(err) => {
                return Err(err);
            },
        };
        let mut acc = first;
        let mut cur = after_first;
        loop
            invariant
                pos < cur <= n,
                op_expr(self.input(), self.env(), pos as int) == op_rest(
                    self.input(),
                    self.env(),
                    cur as int,
                    acc@,
                ),
            decreases n - cur,
        {
            let p = skip_blanks(&self.chars, cur);
            if p < n && (self.chars[p] == '+' || self.chars[p] == '-') {
                let op = if self.chars[p] == '+' {
                    NixBinaryOp::Add
                } else {
                    NixBinaryOp::Sub
                };
                match self.parse_term(p + 1) {
                    Ok((right, next)) => {
                        acc = NixExpr::BinaryOp { op, left: Box::new(acc), right: Box::new(right) };
                        cur = next;
                    },
                    Err(err) => {
                        return Err(err);
                    },
                }
            } else {
                return Ok((acc, cur));
            }
        }
    }

    /// Parses prefix operators and the atom they apply to.
    #[verifier::loop_isolation(false)]
    pub fn parse_term(&self, pos: usize) -> (r: Result<(NixExpr, usize), ParseError>)
        requires
            pos <= self.input().len(),
        ensures
            parsed_expr(r) == term(self.input(), self.env(), pos as int),
            r matches Ok((_, next)) ==> pos < next <= self.input().len(),
        decreases self.input().len() - pos, 2nat,
    {
        let n = self.chars.len();
        let mut ops: Vec<NixUnaryOp> = Vec::new();
        let mut cur = pos;
        let mut p = skip_blanks(&self.chars, cur);
        while p < n && (self.chars[p] == '-' || self.chars[p] == '!')
            invariant
                pos <= cur <= p <= n,
                p == skip_blank(self.input(), cur as int),
                prefix_ops(self.input(), pos as int, Seq::empty()) == prefix_ops(
                    self.input(),
                    cur as int,
                    ops@,
                ),
            decreases n - p,
        {
            if self.chars[p] == '-' {
                ops.push(NixUnaryOp::Neg);
            } else {
                ops.push(NixUnaryOp::Not);
            }
            cur = p + 1;
            p = skip_blanks(&self.chars, cur);
        }
        match self.parse_atom(p) {
            Ok((operand, next)) => Ok((apply_prefix_ops(&ops, operand), next)),
            Err(err) => Err(err),
        }
    }

    /// Parses the atom that starts at `pos`.
    pub fn parse_atom(&self, pos: usize) -> (r: Result<(NixExpr, usize), ParseError>)
        requires
            pos <= self.input().len(),
        ensures
            parsed_expr(r) == atom(self.input(), self.env(), pos as int),
            r matches Ok((_, next)) ==> pos < next <= self.input().len(),
        decreases self.input().len() - pos, 1nat,
    {
        let n = self.chars.len();
        if pos >= n {
            return Err(syntax_error(Rule::AtomicExpr, pos));
        }
        let c = self.chars[pos];
        if char_is_digit(c) {
            proof {
                lemma_scan_bounds(self.chars@, pos + 1, CharClass::Digit);
            }
            self.parse_number(pos)
        } else if c == '"' {
            self.parse_string(pos + 1)
        } else if c == '[' {
            self.parse_list(pos + 1)
        } else if c == '{' {
            self.parse_attr_set(pos + 1, false)
        } else if c == '<' {
            self.parse_search_path(pos)
        } else if c == '/' || c == '~' || c == '.' {
            self.parse_path(pos)
        } else if char_is_ident_start(c) {
            let e = scan_dotted(&self.chars, pos);
            proof {
                lemma_dotted_end_bounds(self.chars@, pos as int);
            }
            if word_is(&self.chars, pos, e, "true") {
                Ok((NixExpr::Value(NixValue::Bool(true)), e))
            } else if word_is(&self.chars, pos, e, "false") {
                Ok((NixExpr::Value(NixValue::Bool(false)), e))
            } else if word_is(&self.chars, pos, e, "null") {
                Ok((NixExpr::Value(NixValue::Null), e))
            } else if word_is(&self.chars, pos, e, "rec") {
                let q = skip_blanks(&self.chars, e);
                if q < n && self.chars[q] == '{' {
                    self.parse_attr_set(q + 1, true)
                } else {
                    Err(syntax_error(Rule::AttrSet, q))
                }
            } else if word_is(&self.chars, pos, e, "let") || word_is(&self.chars, pos, e, "in")
                || word_is(&self.chars, pos, e, "with") || word_is(
                &self.chars,
                pos,
                e,
                "inherit",
            ) {
                Err(syntax_error(Rule::AtomicExpr, pos))
            } else {
                Ok((NixExpr::Ref(self.text(pos, e)), e))
            }
        } else {
            Err(syntax_error(Rule::AtomicExpr, pos))
        }
    }

    /// Parses the bindings of an attribute set after its `{`, up to its `}`.
    pub fn parse_attr_set(&self, pos: usize, recursive: bool) -> (r: Result<
        (NixExpr, usize),
        ParseError,
    >)
        requires
            pos <= self.input().len(),
        ensures
            parsed_expr(r) == attr_set(self.input(), self.env(), pos as int, recursive),
            r matches Ok((_, next)) ==> pos < next <= self.input().len(),
        decreases self.input().len() - pos, 6nat,
    {
        match self.parse_bindings(pos, Bindings::new(), Closer::Brace) {
            Ok((bindings, next)) => Ok((NixExpr::AttrSet { recursive, bindings }, next)),
            Err(err) => Err(err),
        }
    }

    /// Parses the parts of a string from `pos`, after its opening quote, up
    /// to its closing quote.
    #[verifier::loop_isolation(false)]
    pub fn parse_string(&self, pos: usize) -> (r: Result<(NixExpr, usize), ParseError>)
        requires
            pos <= self.input().len(),
        ensures
            parsed_expr(r) == string_parts(self.input(), self.env(), pos as int, Seq::empty()),
            r matches Ok((_, next)) ==> pos < next <= self.input().len(),
        decreases self.input().len() - pos, 5nat,
    {
        let n = self.chars.len();
        let mut parts: Vec<NixStringPart> = Vec::new();
        let mut cur = pos;
        assert(parts_view(parts@) =~= Seq::<PartView>::empty());
        loop
            invariant
                pos <= cur <= n,
                string_parts(self.input(), self.env(), pos as int, Seq::empty()) == string_parts(
                    self.input(),
                    self.env(),
                    cur as int,
                    parts_view(parts@),
                ),
            decreases n - cur,
        {
            if cur >= n {
                return Err(syntax_error(Rule::String, cur));
            }
            let c = self.chars[cur];
            if c == '"' {
                return Ok((string_from_parts(parts), cur + 1));
            }
            let part: NixStringPart;
            let next: usize;
            if c == '$' {
                if cur + 1 < n && self.chars[cur + 1] == '{' {
                    match self.parse_expression(cur + 2) {
                        Ok((value, after)) => {
                            let q = skip_blanks(&self.chars, after);
                            if q < n && self.chars[q] == '}' {
                                part = NixStringPart::Interpolation(Box::new(value));
                                next = q + 1;
                            } else {
                                return Err(syntax_error(Rule::Interpolation, q));
                            }
                        },
                        Err(err) => {
                            return Err(err);
                        },
                    }
                } else {
                    proof {
                        reveal_strlit("$");
                        assert("$"@ =~= seq!['$']);
                    }
                    part = NixStringPart::Literal(String::from_str("$"));
                    next = cur + 1;
                }
            } else if c == '\'' {
                if n - cur > 3 && self.chars[cur + 1] == '\'' && self.chars[cur + 2] == '$'
                    && self.chars[cur + 3] == '{' {
                    proof {
                        reveal_strlit("${");
                        assert("${"@ =~= seq!['$', '{']);
                    }
                    part = NixStringPart::Literal(String::from_str("${"));
                    next = cur + 4;
                } else {
                    proof {
                        reveal_strlit("'");
                        assert("'"@ =~= seq!['\'']);
                    }
                    part = NixStringPart::Literal(String::from_str("'"));
                    next = cur + 1;
                }
            } else if c == '\\' && cur + 1 < n && self.chars[cur + 1] == '"' {
                proof {
                    reveal_strlit("\"");
                    assert("\""@ =~= seq!['"']);
                }
                part = NixStringPart::Literal(String::from_str("\""));
                next = cur + 2;
            } else {
                let e = scan_plain(&self.chars, cur + 1);
                part = NixStringPart::Literal(self.text(cur, e));
                next = e;
            }
            proof {
                lemma_parts_view_push(parts@, part);
            }
            parts.push(part);
            cur = next;
        }
    }

    /// Parses the elements of a list from `pos`, after its `[`, up to its `]`.
    #[verifier::loop_isolation(false)]
    pub fn parse_list(&self, pos: usize) -> (r: Result<(NixExpr, usize), ParseError>)
        requires
            pos <= self.input().len(),
        ensures
            parsed_expr(r) == list_items(self.input(), self.env(), pos as int, Seq::empty()),
            r matches Ok((_, next)) ==> pos < next <= self.input().len(),
        decreases self.input().len() - pos, 5nat,
    {
        let n = self.chars.len();
        let mut items: Vec<NixExpr> = Vec::new();
        let mut cur = pos;
        assert(exprs_view(items@) =~= Seq::<ExprView>::empty());
        loop
            invariant
                pos <= cur <= n,
                list_items(self.input(), self.env(), pos as int, Seq::empty()) == list_items(
                    self.input(),
                    self.env(),
                    cur as int,
                    exprs_view(items@),
                ),
            decreases n - cur,
        {
            let p = skip_blanks(&self.chars, cur);
            if p < n && self.chars[p] == ']' {
                return Ok((NixExpr::List(items), p + 1));
            }
            match self.parse_atom(p) {
                Ok((item, next)) => {
                    proof {
                        lemma_exprs_view_push(items@, item);
                    }
                    items.push(item);
                    cur = next;
                },
                Err(err) => {
                    return Err(err);
                },
            }
        }
    }

    /// Parses the bindings from `pos` up to what closes them and merges them
    /// into `acc`.
    #[verifier::loop_isolation(false)]
    pub fn parse_bindings(&self, pos: usize, acc: Bindings, closer: Closer) -> (r: Result<
        (Bindings, usize),
        ParseError,
    >)
        requires
            pos <= self.input().len(),
        ensures
            parsed_entries(r) == bindings(self.input(), self.env(), pos as int, acc@, closer),
            r matches Ok((_, next)) ==> pos < next <= self.input().len(),
        decreases self.input().len() - pos, 5nat,
    {
        let n = self.chars.len();
        let mut bound = acc;
        let mut cur = pos;
        loop
            invariant
                pos <= cur <= n,
                bindings(self.input(), self.env(), pos as int, acc@, closer) == bindings(
                    self.input(),
                    self.env(),
                    cur as int,
                    bound@,
                    closer,
                ),
            decreases n - cur,
        {
            let p = skip_blanks(&self.chars, cur);
            let e = scan_dotted(&self.chars, p);
            proof {
                lemma_dotted_end_bounds(self.chars@, p as int);
            }
            let closing = match closer {
                Closer::Brace => p < n && self.chars[p] == '}',
                Closer::In => false,
            };
            if closing {
                return Ok((bound, p + 1));
            }
            if !self.is_name_at(p) {
                return Err(syntax_error(Rule::Binding, p));
            }
            let ends_block = match closer {
                Closer::Brace => false,
                Closer::In => word_is(&self.chars, p, e, "in"),
            };
            if ends_block {
                return Ok((bound, e));
            }
            if word_is(&self.chars, p, e, "inherit") {
                match self.parse_inherit(e, bound) {
                    Ok((merged, next)) => {
                        bound = merged;
                        cur = next;
                    },
                    Err(err) => {
                        return Err(err);
                    },
                }
            } else {
                let q = skip_blanks(&self.chars, e);
                if !(q < n && self.chars[q] == '=') {
                    return Err(syntax_error(Rule::Binding, q));
                }
                match self.parse_expression(q + 1) {
                    Ok((value, next)) => {
                        let r = skip_blanks(&self.chars, next);
                        if !(r < n && self.chars[r] == ';') {
                            return Err(syntax_error(Rule::Binding, r));
                        }
                        let keys = self.split_name(p, e);
                        if !insert_at_path(&mut bound, &keys, 0, value) {
                            return Err(
                                ParseError {
                                    kind: ParseErrorKind::AttributePathConflict,
                                    rule: Rule::Binding,
                                    position: p,
                                },
                            );
                        }
                        cur = r + 1;
                    },
                    Err(err) => {
                        return Err(err);
                    },
                }
            }
        }
    }

    /// Parses the whole input: one expression and nothing after it.
    pub fn parse_source(&self) -> (r: Result<NixExpr, ParseError>)
        ensures
            is_parse_of(r, self.input(), self.env()),
    {
        match self.parse_expression(0) {
            Ok((value, next)) => {
                let end = skip_blanks(&self.chars, next);
                if end >= self.chars.len() {
                    Ok(value)
                } else {
                    Err(syntax_error(Rule::Source, end))
                }
            },
            Err(err) => Err(err),
        }
    }
}

/// The view of an optional text.
pub open spec fn text_view(text: Option<String>) -> Option<Seq<char>> {
    match text {
        Some(t) => Some(t@),
        None => None,
    }
}

/// Whether `r` is what parsing the whole of `s` gives: the expression, or
/// the error.
pub open spec fn is_parse_of(r: Result<NixExpr, ParseError>, s: Seq<char>, env: PathEnv) -> bool {
    match r {
        Ok(e) => source(s, env) matches Parsed::Done { value, .. } && value == e@,
        Err(err) => source(s, env) == (Parsed::<ExprView>::Failed { error: err@ }),
    }
}

/// `home::home_dir`: the home directory of the user that runs the program,
/// where the environment tells it. Nothing is promised of the answer.
#[verifier::external_body]
fn home_directory() -> (home: Option<String>) {
    home::home_dir().map(|p| p.to_string_lossy().into_owned())
}

/// Parses `input`, with relative paths taken from `root` and `~/` paths from
/// `home`.
pub fn parse_with_home(input: &str, root: &str, home: Option<&str>) -> (r: Result<
    NixExpr,
    ParseError,
>)
    ensures
        is_parse_of(r, input@, PathEnv { root: root@, home: view_opt(home) }),
{
    let parser = NixParser::new(input, root, home);
    parser.parse_source()
}

/// Parses `input`, with relative paths taken from `root` and `~/` paths from
/// the home directory of the user, as far as it is known.
pub fn parse(input: &str, root: &str) -> (r: Result<NixExpr, ParseError>)
    ensures
        exists|home: Option<Seq<char>>| is_parse_of(r, input@, PathEnv { root: root@, home }),
{
    let home = home_directory();
    let known: Option<&str> = match &home {
        Some(h) => Some(h.as_str()),
        None => None,
    };
    let r = parse_with_home(input, root, known);
    assert(is_parse_of(r, input@, PathEnv { root: root@, home: view_opt(known) }));
    r
}

} // verus!
