//! Semantic checks on a parsed schema: duplicate definitions, duplicate
//! field and variant names, reserved and duplicate wire indices, and
//! references to undefined types.

use crate::schema::{Item, Span, Spanned, Type, StructField, MessageField, EnumVariant, UnionVariant, Struct, Message, Enum, Union, Schema};
use crate::text::{decimal, push_decimal};
use vstd::prelude::*;

verus! {

/// The colour a diagnostic label is drawn in.
#[derive(Debug, Clone, Copy, PartialEq, Eq, Structural)]
pub enum Color {
    Blue,
    Red,
}

/// One diagnostic: a message and labelled source spans.
pub struct CheckError {
    pub message: String,
    pub labels: Vec<(Span, String, Color)>,
}

/// A diagnostic as plain values.
#[verifier::ext_equal]
pub struct ErrorModel {
    pub message: Seq<char>,
    pub labels: Seq<(Span, Seq<char>, Color)>,
}

/// A label as plain values.
pub open spec fn label_model(l: (Span, String, Color)) -> (Span, Seq<char>, Color) {
    (l.0, l.1@, l.2)
}

impl View for CheckError {
    type V = ErrorModel;

    open spec fn view(&self) -> ErrorModel {
        ErrorModel {
            message: self.message@,
            labels: self.labels@.map_values(|l: (Span, String, Color)| label_model(l)),
        }
    }
}

/// A list of diagnostics as plain values.
pub open spec fn errors_model(errors: Seq<CheckError>) -> Seq<ErrorModel> {
    errors.map_values(|e: CheckError| e@)
}

proof fn lemma_errors_model_push(errors: Seq<CheckError>, e: CheckError)
    ensures
        errors_model(errors.push(e)) == errors_model(errors).push(e@),
{
    assert(errors_model(errors.push(e)) =~= errors_model(errors).push(e@));
}

impl CheckError {
    fn new(message: String) -> (res: Self)
        ensures
            res@ == (ErrorModel { message: message@, labels: seq![] }),
    {
        let res = Self { message, labels: Vec::new() };
        assert(res@.labels =~= seq![]);
        res
    }

    fn label(self, span: Span, message: String, color: Color) -> (res: Self)
        ensures
            res@ == (ErrorModel {
                message: self@.message,
                labels: self@.labels.push((span, message@, color)),
            }),
    {
        let mut res = self;
        res.labels.push((span, message, color));
        assert(res@.labels =~= self@.labels.push((span, message@, color)));
        res
    }
}

fn copy_span(span: &Span) -> (res: Span)
    ensures
        res == *span,
{
    span.start..span.end
}

// ---------------------------------------------------------------------------
// What the checks find, stated over the schema
// ---------------------------------------------------------------------------

/// The name an item defines.
pub open spec fn item_name_of(item: Item) -> Seq<char> {
    match item {
        Item::Struct(s) => s.name.node@,
        Item::Message(m) => m.name.node@,
        Item::Enum(e) => e.name.node@,
        Item::Union(u) => u.name.node@,
    }
}

/// The span of the name an item defines.
pub open spec fn item_name_span_of(item: Item) -> Span {
    match item {
        Item::Struct(s) => s.name.span,
        Item::Message(m) => m.name.span,
        Item::Enum(e) => e.name.span,
        Item::Union(u) => u.name.span,
    }
}

/// The names the items define, in order.
pub open spec fn item_names(items: Seq<Spanned<Item>>) -> Seq<Seq<char>> {
    items.map_values(|it: Spanned<Item>| item_name_of(it.node))
}

/// Whether some item defines `name`.
pub open spec fn is_defined(items: Seq<Spanned<Item>>, name: Seq<char>) -> bool {
    item_names(items).contains(name)
}

/// The position of the first of `keys[0..upto]` equal to `key`.
pub open spec fn first_index<K>(keys: Seq<K>, key: K, upto: nat) -> Option<int>
    decreases upto,
{
    if upto == 0 {
        None
    } else {
        match first_index(keys, key, (upto - 1) as nat) {
            Some(j) => Some(j),
            None => if keys[upto - 1] == key {
                Some(upto - 1)
            } else {
                None
            },
        }
    }
}

/// The positions of all of `keys[0..upto]` equal to `key`, in order.
pub open spec fn positions<K>(keys: Seq<K>, key: K, upto: nat) -> Seq<int>
    decreases upto,
{
    if upto == 0 {
        seq![]
    } else {
        let prev = positions(keys, key, (upto - 1) as nat);
        if keys[upto - 1] == key {
            prev.push(upto - 1)
        } else {
            prev
        }
    }
}

/// The labels of a duplicate definition: the first occurrence in blue,
/// every later one in red.
pub open spec fn definition_labels(items: Seq<Spanned<Item>>, idxs: Seq<int>) -> Seq<
    (Span, Seq<char>, Color),
> {
    Seq::new(
        idxs.len(),
        |k: int|
            if k == 0 {
                (item_name_span_of(items[idxs[k]].node), "first defined here"@, Color::Blue)
            } else {
                (item_name_span_of(items[idxs[k]].node), "redefined here"@, Color::Red)
            },
    )
}

/// The diagnostic for a name defined by more than one item.
pub open spec fn duplicate_definition_error(items: Seq<Spanned<Item>>, name: Seq<char>) -> ErrorModel {
    ErrorModel {
        message: "duplicate definition of `"@ + name + "`"@,
        labels: definition_labels(items, positions(item_names(items), name, items.len())),
    }
}

/// One diagnostic for each name that several items define, in the order of
/// the names' first definitions among `items[0..upto]`.
pub open spec fn duplicate_definitions(items: Seq<Spanned<Item>>, upto: nat) -> Seq<ErrorModel>
    decreases upto,
{
    if upto == 0 {
        seq![]
    } else {
        let i = upto - 1;
        let names = item_names(items);
        let prev = duplicate_definitions(items, i as nat);
        if positions(names, names[i], i as nat).len() == 0 && positions(
            names,
            names[i],
            items.len(),
        ).len() > 1 {
            prev.push(duplicate_definition_error(items, names[i]))
        } else {
            prev
        }
    }
}

/// The diagnostics for the named types that `ty` refers to and no item
/// defines, left to right.
pub open spec fn type_errors(ty: Spanned<Type>, items: Seq<Spanned<Item>>) -> Seq<ErrorModel>
    decreases ty,
{
    match ty.node {
        Type::Named(name) => if is_defined(items, name@) {
            seq![]
        } else {
            seq![
                ErrorModel {
                    message: "undefined type `"@ + name@ + "`"@,
                    labels: seq![(ty.span, "not found"@, Color::Red)],
                },
            ]
        },
        Type::Array(inner) => type_errors(*inner, items),
        Type::MapOf(key, value) => type_errors(*key, items) + type_errors(*value, items),
        _ => seq![],
    }
}

/// The diagnostics for an optional type.
pub open spec fn opt_type_errors(ty: Option<Spanned<Type>>, items: Seq<Spanned<Item>>) -> Seq<
    ErrorModel,
> {
    match ty {
        Some(t) => type_errors(t, items),
        None => seq![],
    }
}

/// A named member of a definition: a field or a variant.
pub trait Entry {
    /// The member's name.
    spec fn name_of(&self) -> Spanned<String>;

    /// The member's type, if it has one.
    spec fn type_of(&self) -> Option<Spanned<Type>>;

    fn name(&self) -> (r: &Spanned<String>)
        ensures
            *r == self.name_of(),
    ;

    fn member_type(&self) -> (r: Option<&Spanned<Type>>)
        ensures
            r matches Some(t) ==> self.type_of() == Some(*t),
            r is None ==> self.type_of() is None,
    ;
}

/// A member that carries a wire index.
pub trait IndexedEntry: Entry {
    /// The member's index.
    spec fn index_of(&self) -> Spanned<u32>;

    fn index(&self) -> (r: &Spanned<u32>)
        ensures
            *r == self.index_of(),
    ;
}

impl Entry for StructField {
    open spec fn name_of(&self) -> Spanned<String> {
        self.name
    }

    open spec fn type_of(&self) -> Option<Spanned<Type>> {
        Some(self.ty)
    }

    fn name(&self) -> (r: &Spanned<String>) {
        &self.name
    }

    fn member_type(&self) -> (r: Option<&Spanned<Type>>) {
        Some(&self.ty)
    }
}

impl Entry for MessageField {
    open spec fn name_of(&self) -> Spanned<String> {
        self.name
    }

    open spec fn type_of(&self) -> Option<Spanned<Type>> {
        Some(self.ty)
    }

    fn name(&self) -> (r: &Spanned<String>) {
        &self.name
    }

    fn member_type(&self) -> (r: Option<&Spanned<Type>>) {
        Some(&self.ty)
    }
}

impl IndexedEntry for MessageField {
    open spec fn index_of(&self) -> Spanned<u32> {
        self.index
    }

    fn index(&self) -> (r: &Spanned<u32>) {
        &self.index
    }
}

impl Entry for EnumVariant {
    open spec fn name_of(&self) -> Spanned<String> {
        self.name
    }

    open spec fn type_of(&self) -> Option<Spanned<Type>> {
        None
    }

    fn name(&self) -> (r: &Spanned<String>) {
        &self.name
    }

    fn member_type(&self) -> (r: Option<&Spanned<Type>>) {
        None
    }
}

impl IndexedEntry for EnumVariant {
    open spec fn index_of(&self) -> Spanned<u32> {
        self.index
    }

    fn index(&self) -> (r: &Spanned<u32>) {
        &self.index
    }
}

impl Entry for UnionVariant {
    open spec fn name_of(&self) -> Spanned<String> {
        self.name
    }

    open spec fn type_of(&self) -> Option<Spanned<Type>> {
        self.ty
    }

    fn name(&self) -> (r: &Spanned<String>) {
        &self.name
    }

    fn member_type(&self) -> (r: Option<&Spanned<Type>>) {
        match &self.ty {
            Some(t) => Some(t),
            None => None,
        }
    }
}

impl IndexedEntry for UnionVariant {
    open spec fn index_of(&self) -> Spanned<u32> {
        self.index
    }

    fn index(&self) -> (r: &Spanned<u32>) {
        &self.index
    }
}

/// The members' names, in order.
pub open spec fn entry_names<E: Entry>(entries: Seq<Spanned<E>>) -> Seq<Seq<char>> {
    entries.map_values(|e: Spanned<E>| e.node.name_of().node@)
}

/// The members' indices, in order.
pub open spec fn entry_indices<E: IndexedEntry>(entries: Seq<Spanned<E>>) -> Seq<u32> {
    entries.map_values(|e: Spanned<E>| e.node.index_of().node)
}

/// The message for a member name used twice in one definition.
pub open spec fn duplicate_name_message(
    what: Seq<char>,
    name: Seq<char>,
    kind: Seq<char>,
    owner: Seq<char>,
) -> Seq<char> {
    "duplicate "@ + what + " `"@ + name + "` in "@ + kind + " `"@ + owner + "`"@
}

/// The diagnostic, if any, for the `i`-th member reusing the name of an
/// earlier one: it points at the first member with that name.
pub open spec fn name_error_at<E: Entry>(
    entries: Seq<Spanned<E>>,
    i: int,
    what: Seq<char>,
    kind: Seq<char>,
    owner: Seq<char>,
) -> Seq<ErrorModel> {
    let names = entry_names(entries);
    match first_index(names, names[i], i as nat) {
        Some(j) => seq![
            ErrorModel {
                message: duplicate_name_message(what, names[i], kind, owner),
                labels: seq![
                    (entries[j].node.name_of().span, "first defined here"@, Color::Blue),
                    (entries[i].node.name_of().span, "redefined here"@, Color::Red),
                ],
            },
        ],
        None => seq![],
    }
}

/// The name diagnostics of `entries[0..upto]`, each member's followed by the
/// diagnostics of its type when `with_types` holds.
pub open spec fn name_pass<E: Entry>(
    entries: Seq<Spanned<E>>,
    upto: nat,
    what: Seq<char>,
    kind: Seq<char>,
    owner: Seq<char>,
    with_types: bool,
    items: Seq<Spanned<Item>>,
) -> Seq<ErrorModel>
    decreases upto,
{
    if upto == 0 {
        seq![]
    } else {
        let i = upto - 1;
        name_pass(entries, i as nat, what, kind, owner, with_types, items) + name_error_at(
            entries,
            i,
            what,
            kind,
            owner,
        ) + if with_types {
            opt_type_errors(entries[i].node.type_of(), items)
        } else {
            seq![]
        }
    }
}

/// The diagnostics for the `i`-th member's index: reserved zero (when
/// `zero_reserved`), then reuse of an earlier member's index.
pub open spec fn index_error_at<E: IndexedEntry>(
    entries: Seq<Spanned<E>>,
    i: int,
    zero_reserved: bool,
    kind: Seq<char>,
    owner: Seq<char>,
) -> Seq<ErrorModel> {
    let idx = entries[i].node.index_of();
    let zero = if zero_reserved && idx.node == 0 {
        seq![
            ErrorModel {
                message: "index 0 is reserved in "@ + kind + " `"@ + owner + "`"@,
                labels: seq![(idx.span, "indices must be >= 1"@, Color::Red)],
            },
        ]
    } else {
        seq![]
    };
    let dup = match first_index(entry_indices(entries), idx.node, i as nat) {
        Some(j) => seq![
            ErrorModel {
                message: "duplicate index "@ + decimal(idx.node as nat) + " in "@ + kind + " `"@
                    + owner + "`"@,
                labels: seq![
                    (entries[j].node.index_of().span, "first used here"@, Color::Blue),
                    (idx.span, "reused here"@, Color::Red),
                ],
            },
        ],
        None => seq![],
    };
    zero + dup
}

/// The index diagnostics of `entries[0..upto]`, each member's followed by
/// the diagnostics of its type.
pub open spec fn index_pass<E: IndexedEntry>(
    entries: Seq<Spanned<E>>,
    upto: nat,
    zero_reserved: bool,
    kind: Seq<char>,
    owner: Seq<char>,
    items: Seq<Spanned<Item>>,
) -> Seq<ErrorModel>
    decreases upto,
{
    if upto == 0 {
        seq![]
    } else {
        let i = upto - 1;
        index_pass(entries, i as nat, zero_reserved, kind, owner, items) + index_error_at(
            entries,
            i,
            zero_reserved,
            kind,
            owner,
        ) + opt_type_errors(entries[i].node.type_of(), items)
    }
}

/// The diagnostics of one item.
pub open spec fn item_errors_of(item: Item, items: Seq<Spanned<Item>>) -> Seq<ErrorModel> {
    match item {
        Item::Struct(s) => name_pass(
            s.fields@,
            s.fields@.len(),
            "field"@,
            "struct"@,
            s.name.node@,
            true,
            items,
        ),
        Item::Message(m) => name_pass(
            m.fields@,
            m.fields@.len(),
            "field"@,
            "message"@,
            m.name.node@,
            false,
            items,
        ) + index_pass(m.fields@, m.fields@.len(), true, "message"@, m.name.node@, items),
        Item::Enum(e) => name_pass(
            e.variants@,
            e.variants@.len(),
            "variant"@,
            "enum"@,
            e.name.node@,
            false,
            items,
        ) + index_pass(e.variants@, e.variants@.len(), false, "enum"@, e.name.node@, items),
        Item::Union(u) => name_pass(
            u.variants@,
            u.variants@.len(),
            "variant"@,
            "union"@,
            u.name.node@,
            false,
            items,
        ) + index_pass(u.variants@, u.variants@.len(), true, "union"@, u.name.node@, items),
    }
}

/// The diagnostics of `items[0..upto]`, item by item.
pub open spec fn item_pass(items: Seq<Spanned<Item>>, upto: nat) -> Seq<ErrorModel>
    decreases upto,
{
    if upto == 0 {
        seq![]
    } else {
        item_pass(items, (upto - 1) as nat) + item_errors_of(items[upto - 1].node, items)
    }
}

/// Everything the checker reports for a schema with these items: the
/// duplicate definitions, then each item's own diagnostics in source order.
pub open spec fn check_errors(items: Seq<Spanned<Item>>) -> Seq<ErrorModel> {
    duplicate_definitions(items, items.len()) + item_pass(items, items.len())
}

// ---------------------------------------------------------------------------
// The checks
// ---------------------------------------------------------------------------

/// The name an item defines.
pub fn item_name(item: &Spanned<Item>) -> (r: &str)
    ensures
        r@ == item_name_of(item.node),
{
    item_name_string(item).as_str()
}

fn item_name_string(item: &Spanned<Item>) -> (r: &String)
    ensures
        r@ == item_name_of(item.node),
{
    match &item.node {
        Item::Struct(s) => &s.name.node,
        Item::Message(m) => &m.name.node,
        Item::Enum(e) => &e.name.node,
        Item::Union(u) => &u.name.node,
    }
}

/// The span of the name an item defines.
pub fn item_name_span(item: &Spanned<Item>) -> (r: Span)
    ensures
        r == item_name_span_of(item.node),
{
    match &item.node {
        Item::Struct(s) => copy_span(&s.name.span),
        Item::Message(m) => copy_span(&m.name.span),
        Item::Enum(e) => copy_span(&e.name.span),
        Item::Union(u) => copy_span(&u.name.span),
    }
}

fn is_defined_exec(items: &Vec<Spanned<Item>>, name: &String) -> (r: bool)
    ensures
        r == is_defined(items@, name@),
{
    let n = items.len();
    for j in 0..n
        invariant
            n == items@.len(),
            forall|k: int| 0 <= k < j ==> item_names(items@)[k] != name@,
    {
        if *item_name_string(&items[j]) == *name {
            assert(item_names(items@)[j as int] == name@);
            return true;
        }
    }
    assert(!item_names(items@).contains(name@));
    false
}

fn check_type(ty: &Spanned<Type>, items: &Vec<Spanned<Item>>, errors: &mut Vec<CheckError>)
    ensures
        errors_model(final(errors)@) == errors_model(old(errors)@) + type_errors(*ty, items@),
    decreases ty,
{
    match &ty.node {
        Type::Named(name) => {
            if !is_defined_exec(items, name) {
                let mut message = String::from_str("undefined type `");
                message.append(name.as_str());
                message.append("`");
                let err = CheckError::new(message).label(
                    copy_span(&ty.span),
                    String::from_str("not found"),
                    Color::Red,
                );
                let ghost before = errors@;
                errors.push(err);
                proof {
                    lemma_errors_model_push(before, err);
                    assert(err@ =~= (ErrorModel {
                        message: "undefined type `"@ + name@ + "`"@,
                        labels: seq![(ty.span, "not found"@, Color::Red)],
                    }));
                }
            }
            assert(errors_model(errors@) =~= errors_model(old(errors)@) + type_errors(*ty, items@));
        },
        Type::Array(inner) => {
            check_type(&**inner, items, errors);
        },
        Type::MapOf(key, value) => {
            check_type(&**key, items, errors);
            check_type(&**value, items, errors);
            assert(errors_model(errors@) =~= errors_model(old(errors)@) + type_errors(*ty, items@));
        },
        _ => {
            assert(errors_model(errors@) =~= errors_model(old(errors)@) + type_errors(*ty, items@));
        },
    }
}

fn first_name_index<E: Entry>(entries: &Vec<Spanned<E>>, i: usize, name: &String) -> (r: Option<
    usize,
>)
    requires
        i <= entries@.len(),
    ensures
        match first_index(entry_names(entries@), name@, i as nat) {
            Some(j) => r == Some(j as usize) && 0 <= j < i,
            None => r is None,
        },
{
    let mut found: Option<usize> = None;
    for j in 0..i
        invariant
            i <= entries@.len(),
            match first_index(entry_names(entries@), name@, j as nat) {
                Some(k) => found == Some(k as usize) && 0 <= k < j,
                None => found is None,
            },
    {
        if found.is_none() && entries[j].node.name().node == *name {
            found = Some(j);
        }
    }
    found
}

fn first_index_index<E: IndexedEntry>(entries: &Vec<Spanned<E>>, i: usize, index: u32) -> (r:
    Option<usize>)
    requires
        i <= entries@.len(),
    ensures
        match first_index(entry_indices(entries@), index, i as nat) {
            Some(j) => r == Some(j as usize) && 0 <= j < i,
            None => r is None,
        },
{
    let mut found: Option<usize> = None;
    for j in 0..i
        invariant
            i <= entries@.len(),
            match first_index(entry_indices(entries@), index, j as nat) {
                Some(k) => found == Some(k as usize) && 0 <= k < j,
                None => found is None,
            },
    {
        if found.is_none() && entries[j].node.index().node == index {
            found = Some(j);
        }
    }
    found
}

fn check_names<E: Entry>(
    entries: &Vec<Spanned<E>>,
    what: &str,
    kind: &str,
    owner: &String,
    with_types: bool,
    items: &Vec<Spanned<Item>>,
    errors: &mut Vec<CheckError>,
)
    ensures
        errors_model(final(errors)@) == errors_model(old(errors)@) + name_pass(
            entries@,
            entries@.len(),
            what@,
            kind@,
            owner@,
            with_types,
            items@,
        ),
{
    let n = entries.len();
    for i in 0..n
        invariant
            n == entries@.len(),
            errors_model(errors@) == errors_model(old(errors)@) + name_pass(
                entries@,
                i as nat,
                what@,
                kind@,
                owner@,
                with_types,
                items@,
            ),
    {
        let ghost before = errors_model(errors@);
        let name = entries[i].node.name();
        let first = first_name_index(entries, i, &name.node);
        if let Some(j) = first {
            let mut message = String::from_str("duplicate ");
            message.append(what);
            message.append(" `");
            message.append(name.node.as_str());
            message.append("` in ");
            message.append(kind);
            message.append(" `");
            message.append(owner.as_str());
            message.append("`");
            let err = CheckError::new(message).label(
                copy_span(&entries[j].node.name().span),
                String::from_str("first defined here"),
                Color::Blue,
            ).label(copy_span(&name.span), String::from_str("redefined here"), Color::Red);
            let ghost prev = errors@;
            errors.push(err);
            proof {
                lemma_errors_model_push(prev, err);
                let names = entry_names(entries@);
                assert(names[i as int] == name.node@);
                assert(err@ =~= (ErrorModel {
                    message: duplicate_name_message(what@, names[i as int], kind@, owner@),
                    labels: seq![
                        (entries@[j as int].node.name_of().span, "first defined here"@, Color::Blue),
                        (entries@[i as int].node.name_of().span, "redefined here"@, Color::Red),
                    ],
                }));
            }
        } else {
            assert(entry_names(entries@)[i as int] == name.node@);
        }
        let ghost mid = errors_model(errors@);
        assert(mid =~= before + name_error_at(entries@, i as int, what@, kind@, owner@));
        if with_types {
            match entries[i].node.member_type() {
                Some(t) => check_type(t, items, errors),
                None => {},
            }
        }
        assert(errors_model(errors@) =~= errors_model(old(errors)@) + name_pass(
            entries@,
            (i + 1) as nat,
            what@,
            kind@,
            owner@,
            with_types,
            items@,
        ));
    }
}

fn check_indices<E: IndexedEntry>(
    entries: &Vec<Spanned<E>>,
    zero_reserved: bool,
    kind: &str,
    owner: &String,
    items: &Vec<Spanned<Item>>,
    errors: &mut Vec<CheckError>,
)
    ensures
        errors_model(final(errors)@) == errors_model(old(errors)@) + index_pass(
            entries@,
            entries@.len(),
            zero_reserved,
            kind@,
            owner@,
            items@,
        ),
{
    let n = entries.len();
    for i in 0..n
        invariant
            n == entries@.len(),
            errors_model(errors@) == errors_model(old(errors)@) + index_pass(
                entries@,
                i as nat,
                zero_reserved,
                kind@,
                owner@,
                items@,
            ),
    {
        let ghost before = errors_model(errors@);
        let index = entries[i].node.index();
        if zero_reserved && index.node == 0 {
            let mut message = String::from_str("index 0 is reserved in ");
            message.append(kind);
            message.append(" `");
            message.append(owner.as_str());
            message.append("`");
            let err = CheckError::new(message).label(
                copy_span(&index.span),
                String::from_str("indices must be >= 1"),
                Color::Red,
            );
            let ghost prev = errors@;
            errors.push(err);
            proof {
                lemma_errors_model_push(prev, err);
                assert(err@ =~= (ErrorModel {
                    message: "index 0 is reserved in "@ + kind@ + " `"@ + owner@ + "`"@,
                    labels: seq![(index.span, "indices must be >= 1"@, Color::Red)],
                }));
            }
        }
        let first = first_index_index(entries, i, index.node);
        if let Some(j) = first {
            let mut message = String::from_str("duplicate index ");
            push_decimal(&mut message, index.node as u64);
            message.append(" in ");
            message.append(kind);
            message.append(" `");
            message.append(owner.as_str());
            message.append("`");
            let err = CheckError::new(message).label(
                copy_span(&entries[j].node.index().span),
                String::from_str("first used here"),
                Color::Blue,
            ).label(copy_span(&index.span), String::from_str("reused here"), Color::Red);
            let ghost prev = errors@;
            errors.push(err);
            proof {
                lemma_errors_model_push(prev, err);
                assert(err@ =~= (ErrorModel {
                    message: "duplicate index "@ + decimal(index.node as nat) + " in "@ + kind@ + " `"@
                        + owner@ + "`"@,
                    labels: seq![
                        (entries@[j as int].node.index_of().span, "first used here"@, Color::Blue),
                        (index.span, "reused here"@, Color::Red),
                    ],
                }));
            }
        }
        let ghost mid = errors_model(errors@);
        assert(mid =~= before + index_error_at(entries@, i as int, zero_reserved, kind@, owner@));
        match entries[i].node.member_type() {
            Some(t) => check_type(t, items, errors),
            None => {},
        }
        assert(errors_model(errors@) =~= errors_model(old(errors)@) + index_pass(
            entries@,
            (i + 1) as nat,
            zero_reserved,
            kind@,
            owner@,
            items@,
        ));
    }
}

fn check_struct(s: &Struct, items: &Vec<Spanned<Item>>, errors: &mut Vec<CheckError>)
    ensures
        errors_model(final(errors)@) == errors_model(old(errors)@) + item_errors_of(
            Item::Struct(*s),
            items@,
        ),
{
    check_names(&s.fields, "field", "struct", &s.name.node, true, items, errors);
}

fn check_message(m: &Message, items: &Vec<Spanned<Item>>, errors: &mut Vec<CheckError>)
    ensures
        errors_model(final(errors)@) == errors_model(old(errors)@) + item_errors_of(
            Item::Message(*m),
            items@,
        ),
{
    check_names(&m.fields, "field", "message", &m.name.node, false, items, errors);
    check_indices(&m.fields, true, "message", &m.name.node, items, errors);
    assert(errors_model(errors@) =~= errors_model(old(errors)@) + item_errors_of(
        Item::Message(*m),
        items@,
    ));
}

fn check_enum(e: &Enum, items: &Vec<Spanned<Item>>, errors: &mut Vec<CheckError>)
    ensures
        errors_model(final(errors)@) == errors_model(old(errors)@) + item_errors_of(
            Item::Enum(*e),
            items@,
        ),
{
    check_names(&e.variants, "variant", "enum", &e.name.node, false, items, errors);
    check_indices(&e.variants, false, "enum", &e.name.node, items, errors);
    assert(errors_model(errors@) =~= errors_model(old(errors)@) + item_errors_of(
        Item::Enum(*e),
        items@,
    ));
}

fn check_union(u: &Union, items: &Vec<Spanned<Item>>, errors: &mut Vec<CheckError>)
    ensures
        errors_model(final(errors)@) == errors_model(old(errors)@) + item_errors_of(
            Item::Union(*u),
            items@,
        ),
{
    check_names(&u.variants, "variant", "union", &u.name.node, false, items, errors);
    check_indices(&u.variants, true, "union", &u.name.node, items, errors);
    assert(errors_model(errors@) =~= errors_model(old(errors)@) + item_errors_of(
        Item::Union(*u),
        items@,
    ));
}

/// Whether an item before position `i` defines the same name as item `i`.
fn defined_earlier(items: &Vec<Spanned<Item>>, i: usize) -> (r: bool)
    requires
        i < items@.len(),
    ensures
        r == (positions(item_names(items@), item_names(items@)[i as int], i as nat).len() > 0),
{
    let name = item_name_string(&items[i]);
    let ghost names = item_names(items@);
    assert(names[i as int] == name@);
    let mut seen = false;
    for j in 0..i
        invariant
            i < items@.len(),
            names == item_names(items@),
            names[i as int] == name@,
            seen == (positions(names, name@, j as nat).len() > 0),
    {
        if *item_name_string(&items[j]) == *name {
            seen = true;
        }
        assert(names[j as int] == item_name_of(items@[j as int].node));
    }
    seen
}

/// The diagnostic for the name item `i` defines, listing every item that
/// defines it; it has one label per definition.
fn definition_error(items: &Vec<Spanned<Item>>, i: usize) -> (r: CheckError)
    requires
        i < items@.len(),
    ensures
        r@ == duplicate_definition_error(items@, item_names(items@)[i as int]),
        r@.labels.len() == positions(item_names(items@), item_names(items@)[i as int], items@.len()).len(),
{
    let name = item_name_string(&items[i]);
    let ghost names = item_names(items@);
    assert(names[i as int] == name@);
    let mut message = String::from_str("duplicate definition of `");
    message.append(name.as_str());
    message.append("`");
    let mut err = CheckError::new(message);
    let mut count: usize = 0;
    let n = items.len();
    for j in 0..n
        invariant
            n == items@.len(),
            names == item_names(items@),
            names[i as int] == name@,
            err@.message == "duplicate definition of `"@ + name@ + "`"@,
            err@.labels == definition_labels(items@, positions(names, name@, j as nat)),
            count == positions(names, name@, j as nat).len(),
            count <= j,
    {
        let ghost before = positions(names, name@, j as nat);
        assert(names[j as int] == item_name_of(items@[j as int].node));
        if *item_name_string(&items[j]) == *name {
            let span = item_name_span(&items[j]);
            if count == 0 {
                err = err.label(span, String::from_str("first defined here"), Color::Blue);
            } else {
                err = err.label(span, String::from_str("redefined here"), Color::Red);
            }
            count = count + 1;
            assert(positions(names, name@, (j + 1) as nat) == before.push(j as int));
            assert(err@.labels =~= definition_labels(items@, before.push(j as int)));
        }
    }
    err
}

/// Checks a schema: every name defined by more than one item, then, item by
/// item, duplicate member names, reserved and duplicate indices, and
/// references to types that no item defines.
pub fn check(schema: &Schema) -> (errors: Vec<CheckError>)
    ensures
        errors_model(errors@) == check_errors(schema.items@),
{
    let items = &schema.items;
    let mut errors: Vec<CheckError> = Vec::new();
    let n = items.len();
    assert(errors_model(errors@) =~= seq![]);
    for i in 0..n
        invariant
            n == items@.len(),
            errors_model(errors@) == duplicate_definitions(items@, i as nat),
    {
        if !defined_earlier(items, i) {
            let err = definition_error(items, i);
            if err.labels.len() > 1 {
                let ghost prev = errors@;
                errors.push(err);
                proof {
                    lemma_errors_model_push(prev, err);
                }
            }
        }
    }
    for i in 0..n
        invariant
            n == items@.len(),
            errors_model(errors@) == duplicate_definitions(items@, n as nat) + item_pass(
                items@,
                i as nat,
            ),
    {
        match &items[i].node {
            Item::Struct(s) => check_struct(s, items, &mut errors),
            Item::Message(m) => check_message(m, items, &mut errors),
            Item::Enum(e) => check_enum(e, items, &mut errors),
            Item::Union(u) => check_union(u, items, &mut errors),
        }
        assert(errors_model(errors@) =~= duplicate_definitions(items@, n as nat) + item_pass(
            items@,
            (i + 1) as nat,
        ));
    }
    errors
}

// ---------------------------------------------------------------------------
// When a schema passes the checks
// ---------------------------------------------------------------------------

/// No two of `keys` are equal.
pub open spec fn all_distinct<K>(keys: Seq<K>) -> bool {
    forall|i: int, j: int| 0 <= i < j < keys.len() ==> keys[i] != keys[j]
}

/// Every named type that `ty` mentions is defined by some item.
pub open spec fn type_refs_defined(ty: Spanned<Type>, items: Seq<Spanned<Item>>) -> bool
    decreases ty,
{
    match ty.node {
        Type::Named(name) => is_defined(items, name@),
        Type::Array(inner) => type_refs_defined(*inner, items),
        Type::MapOf(key, value) => type_refs_defined(*key, items) && type_refs_defined(*value, items),
        _ => true,
    }
}

/// The members have distinct names and mention only defined types.
pub open spec fn members_valid<E: Entry>(entries: Seq<Spanned<E>>, items: Seq<Spanned<Item>>) -> bool {
    &&& all_distinct(entry_names(entries))
    &&& forall|i: int|
        0 <= i < entries.len() ==> match (#[trigger] entries[i]).node.type_of() {
            Some(t) => type_refs_defined(t, items),
            None => true,
        }
}

/// The members have distinct indices, none of them 0 when 0 is reserved.
pub open spec fn indices_valid<E: IndexedEntry>(entries: Seq<Spanned<E>>, zero_reserved: bool) -> bool {
    &&& all_distinct(entry_indices(entries))
    &&& zero_reserved ==> forall|i: int|
        0 <= i < entries.len() ==> (#[trigger] entries[i]).node.index_of().node != 0
}

/// One item is well formed: members named apart, indices distinct and
/// (for messages and unions) non-zero, and only defined types used.
pub open spec fn item_valid(item: Item, items: Seq<Spanned<Item>>) -> bool {
    match item {
        Item::Struct(s) => members_valid(s.fields@, items),
        Item::Message(m) => members_valid(m.fields@, items) && indices_valid(m.fields@, true),
        Item::Enum(e) => members_valid(e.variants@, items) && indices_valid(e.variants@, false),
        Item::Union(u) => members_valid(u.variants@, items) && indices_valid(u.variants@, true),
    }
}

/// A schema is well formed: its items define distinct names and each item
/// is well formed.
pub open spec fn schema_valid(items: Seq<Spanned<Item>>) -> bool {
    &&& all_distinct(item_names(items))
    &&& forall|i: int| 0 <= i < items.len() ==> item_valid(#[trigger] items[i].node, items)
}

proof fn lemma_first_index_none<K>(keys: Seq<K>, key: K, upto: nat)
    requires
        upto <= keys.len(),
    ensures
        first_index(keys, key, upto) is None <==> forall|j: int| 0 <= j < upto ==> keys[j] != key,
        first_index(keys, key, upto) matches Some(f) ==> 0 <= f < upto && keys[f] == key && forall|
            j: int,
        | 0 <= j < f ==> keys[j] != key,
    decreases upto,
{
    if upto > 0 {
        lemma_first_index_none(keys, key, (upto - 1) as nat);
    }
}

proof fn lemma_positions<K>(keys: Seq<K>, key: K, upto: nat)
    requires
        upto <= keys.len(),
    ensures
        positions(keys, key, upto).len() == 0 <==> forall|j: int| 0 <= j < upto ==> keys[j] != key,
        forall|a: int, b: int|
            0 <= a < b < upto && keys[a] == key && keys[b] == key ==> positions(keys, key, upto).len()
                >= 2,
        forall|a: int| 0 <= a < upto && keys[a] == key ==> positions(keys, key, upto).len() >= 1,
        (forall|a: int, b: int| 0 <= a < b < upto ==> keys[a] != keys[b]) ==> positions(
            keys,
            key,
            upto,
        ).len() <= 1,
    decreases upto,
{
    if upto > 0 {
        lemma_positions(keys, key, (upto - 1) as nat);
    }
}

proof fn lemma_distinct_first_index<K>(keys: Seq<K>)
    ensures
        all_distinct(keys) <==> forall|i: int|
            0 <= i < keys.len() ==> (first_index(keys, #[trigger] keys[i], i as nat) is None),
{
    assert forall|i: int| 0 <= i < keys.len() implies (first_index(keys, #[trigger] keys[i], i as nat)
        is None <==> forall|j: int| 0 <= j < i ==> keys[j] != keys[i]) by {
        lemma_first_index_none(keys, keys[i], i as nat);
    }
}

proof fn lemma_type_errors_empty(ty: Spanned<Type>, items: Seq<Spanned<Item>>)
    ensures
        type_errors(ty, items).len() == 0 <==> type_refs_defined(ty, items),
    decreases ty,
{
    match ty.node {
        Type::Array(inner) => lemma_type_errors_empty(*inner, items),
        Type::MapOf(key, value) => {
            lemma_type_errors_empty(*key, items);
            lemma_type_errors_empty(*value, items);
        },
        _ => {},
    }
}

proof fn lemma_opt_type_errors_empty(ty: Option<Spanned<Type>>, items: Seq<Spanned<Item>>)
    ensures
        opt_type_errors(ty, items).len() == 0 <==> match ty {
            Some(t) => type_refs_defined(t, items),
            None => true,
        },
{
    if let Some(t) = ty {
        lemma_type_errors_empty(t, items);
    }
}

proof fn lemma_name_pass_empty<E: Entry>(
    entries: Seq<Spanned<E>>,
    upto: nat,
    what: Seq<char>,
    kind: Seq<char>,
    owner: Seq<char>,
    with_types: bool,
    items: Seq<Spanned<Item>>,
)
    requires
        upto <= entries.len(),
    ensures
        name_pass(entries, upto, what, kind, owner, with_types, items).len() == 0 <==> forall|i: int|
            0 <= i < upto ==> {
                &&& first_index(entry_names(entries), #[trigger] entry_names(entries)[i], i as nat) is None
                &&& with_types ==> opt_type_errors(entries[i].node.type_of(), items).len() == 0
            },
    decreases upto,
{
    if upto > 0 {
        lemma_name_pass_empty(entries, (upto - 1) as nat, what, kind, owner, with_types, items);
    }
}

proof fn lemma_index_pass_empty<E: IndexedEntry>(
    entries: Seq<Spanned<E>>,
    upto: nat,
    zero_reserved: bool,
    kind: Seq<char>,
    owner: Seq<char>,
    items: Seq<Spanned<Item>>,
)
    requires
        upto <= entries.len(),
    ensures
        index_pass(entries, upto, zero_reserved, kind, owner, items).len() == 0 <==> forall|i: int|
            0 <= i < upto ==> {
                &&& zero_reserved ==> (#[trigger] entries[i]).node.index_of().node != 0
                &&& first_index(entry_indices(entries), entry_indices(entries)[i], i as nat) is None
                &&& opt_type_errors(entries[i].node.type_of(), items).len() == 0
            },
    decreases upto,
{
    if upto > 0 {
        lemma_index_pass_empty(entries, (upto - 1) as nat, zero_reserved, kind, owner, items);
        let i = upto - 1;
        assert(entry_indices(entries)[i] == entries[i].node.index_of().node);
    }
}

proof fn lemma_members<E: Entry>(
    entries: Seq<Spanned<E>>,
    what: Seq<char>,
    kind: Seq<char>,
    owner: Seq<char>,
    with_types: bool,
    items: Seq<Spanned<Item>>,
)
    ensures
        name_pass(entries, entries.len(), what, kind, owner, with_types, items).len() == 0 <==> {
            &&& all_distinct(entry_names(entries))
            &&& with_types ==> forall|i: int|
                0 <= i < entries.len() ==> opt_type_errors((#[trigger] entries[i]).node.type_of(), items).len()
                    == 0
        },
{
    let names = entry_names(entries);
    lemma_name_pass_empty(entries, entries.len(), what, kind, owner, with_types, items);
    lemma_distinct_first_index(names);
    let empty = name_pass(entries, entries.len(), what, kind, owner, with_types, items).len() == 0;
    let types_ok = forall|i: int|
        0 <= i < entries.len() ==> opt_type_errors((#[trigger] entries[i]).node.type_of(), items).len()
            == 0;
    if empty {
        assert forall|i: int| 0 <= i < names.len() implies (first_index(
            names,
            #[trigger] names[i],
            i as nat,
        ) is None) by {}
        if with_types {
            assert forall|i: int| 0 <= i < entries.len() implies opt_type_errors(
                (#[trigger] entries[i]).node.type_of(),
                items,
            ).len() == 0 by {
                assert(names[i] == entry_names(entries)[i]);
            }
        }
    }
    if all_distinct(names) && (with_types ==> types_ok) {
        assert forall|i: int| 0 <= i < entries.len() implies {
            &&& first_index(names, #[trigger] names[i], i as nat) is None
            &&& with_types ==> opt_type_errors(entries[i].node.type_of(), items).len() == 0
        } by {}
    }
}

proof fn lemma_indices<E: IndexedEntry>(
    entries: Seq<Spanned<E>>,
    zero_reserved: bool,
    kind: Seq<char>,
    owner: Seq<char>,
    items: Seq<Spanned<Item>>,
)
    ensures
        index_pass(entries, entries.len(), zero_reserved, kind, owner, items).len() == 0 <==> {
            &&& indices_valid(entries, zero_reserved)
            &&& forall|i: int|
                0 <= i < entries.len() ==> opt_type_errors((#[trigger] entries[i]).node.type_of(), items).len()
                    == 0
        },
{
    lemma_index_pass_empty(entries, entries.len(), zero_reserved, kind, owner, items);
    lemma_distinct_first_index(entry_indices(entries));
}

proof fn lemma_types_defined<E: Entry>(entries: Seq<Spanned<E>>, items: Seq<Spanned<Item>>)
    ensures
        (forall|i: int|
            0 <= i < entries.len() ==> opt_type_errors((#[trigger] entries[i]).node.type_of(), items).len()
                == 0) <==> forall|i: int|
            0 <= i < entries.len() ==> match (#[trigger] entries[i]).node.type_of() {
                Some(t) => type_refs_defined(t, items),
                None => true,
            },
{
    assert forall|i: int| 0 <= i < entries.len() implies (opt_type_errors(
        (#[trigger] entries[i]).node.type_of(),
        items,
    ).len() == 0 <==> match entries[i].node.type_of() {
        Some(t) => type_refs_defined(t, items),
        None => true,
    }) by {
        lemma_opt_type_errors_empty(entries[i].node.type_of(), items);
    }
}

proof fn lemma_item_errors_empty(item: Item, items: Seq<Spanned<Item>>)
    ensures
        item_errors_of(item, items).len() == 0 <==> item_valid(item, items),
{
    match item {
        Item::Struct(s) => {
            lemma_members(s.fields@, "field"@, "struct"@, s.name.node@, true, items);
            lemma_types_defined(s.fields@, items);
        },
        Item::Message(m) => {
            lemma_members(m.fields@, "field"@, "message"@, m.name.node@, false, items);
            lemma_indices(m.fields@, true, "message"@, m.name.node@, items);
            lemma_types_defined(m.fields@, items);
        },
        Item::Enum(e) => {
            lemma_members(e.variants@, "variant"@, "enum"@, e.name.node@, false, items);
            lemma_indices(e.variants@, false, "enum"@, e.name.node@, items);
            lemma_types_defined(e.variants@, items);
        },
        Item::Union(u) => {
            lemma_members(u.variants@, "variant"@, "union"@, u.name.node@, false, items);
            lemma_indices(u.variants@, true, "union"@, u.name.node@, items);
            lemma_types_defined(u.variants@, items);
        },
    }
}

proof fn lemma_item_pass_empty(items: Seq<Spanned<Item>>, upto: nat)
    requires
        upto <= items.len(),
    ensures
        item_pass(items, upto).len() == 0 <==> forall|i: int|
            0 <= i < upto ==> item_errors_of(#[trigger] items[i].node, items).len() == 0,
    decreases upto,
{
    if upto > 0 {
        lemma_item_pass_empty(items, (upto - 1) as nat);
    }
}

proof fn lemma_duplicate_definitions_upto(items: Seq<Spanned<Item>>, upto: nat)
    requires
        upto <= items.len(),
    ensures
        duplicate_definitions(items, upto).len() == 0 <==> forall|i: int|
            0 <= i < upto ==> !(positions(item_names(items), #[trigger] item_names(items)[i], i as nat).len()
                == 0 && positions(item_names(items), item_names(items)[i], items.len()).len() > 1),
    decreases upto,
{
    if upto > 0 {
        lemma_duplicate_definitions_upto(items, (upto - 1) as nat);
    }
}

proof fn lemma_duplicate_definitions_empty(items: Seq<Spanned<Item>>)
    ensures
        duplicate_definitions(items, items.len()).len() == 0 <==> all_distinct(item_names(items)),
{
    let names = item_names(items);
    let n = items.len();
    lemma_duplicate_definitions_upto(items, n);
    if all_distinct(names) {
        assert forall|i: int| 0 <= i < n implies positions(names, #[trigger] names[i], n).len() <= 1 by {
            lemma_positions(names, names[i], n);
        }
    } else {
        let (a, b) = choose|a: int, b: int| 0 <= a < b < names.len() && names[a] == names[b];
        lemma_first_index_none(names, names[a], n);
        let f = first_index(names, names[a], n).unwrap();
        lemma_positions(names, names[f], f as nat);
        lemma_positions(names, names[f], n);
        assert(positions(names, names[f], f as nat).len() == 0);
        assert(positions(names, names[f], n).len() >= 2);
    }
}

/// The checker reports nothing exactly for well-formed schemas: the items
/// define distinct names, every struct, message, enum and union names its
/// members apart, messages and unions use distinct non-zero indices, enums
/// distinct indices, and every type mentioned is defined.
pub proof fn lemma_check_accepts_exactly_valid(items: Seq<Spanned<Item>>)
    ensures
        check_errors(items).len() == 0 <==> schema_valid(items),
{
    lemma_duplicate_definitions_empty(items);
    lemma_item_pass_empty(items, items.len());
    assert forall|i: int| 0 <= i < items.len() implies (item_errors_of(#[trigger] items[i].node, items).len()
        == 0 <==> item_valid(items[i].node, items)) by {
        lemma_item_errors_empty(items[i].node, items);
    }
}

/// A name counts as defined exactly when some item of the schema, wherever
/// it stands (first, last or between), defines it.
pub proof fn lemma_defined_names(items: Seq<Spanned<Item>>, name: Seq<char>)
    ensures
        is_defined(items, name) <==> exists|i: int|
            0 <= i < items.len() && #[trigger] item_name_of(items[i].node) == name,
        forall|i: int|
            0 <= i < items.len() ==> is_defined(items, #[trigger] item_name_of(items[i].node)),
{
    let names = item_names(items);
    if is_defined(items, name) {
        let i = choose|i: int| 0 <= i < names.len() && names[i] == name;
        assert(item_name_of(items[i].node) == name);
    }
    if exists|i: int| 0 <= i < items.len() && #[trigger] item_name_of(items[i].node) == name {
        let i = choose|i: int| 0 <= i < items.len() && #[trigger] item_name_of(items[i].node) == name;
        assert(names[i] == name);
    }
    assert forall|i: int| 0 <= i < items.len() implies is_defined(
        items,
        #[trigger] item_name_of(items[i].node),
    ) by {
        assert(names[i] == item_name_of(items[i].node));
    }
}

/// A type named after an item of the schema, any item, draws no
/// diagnostic.
pub proof fn lemma_named_item_type_accepted(items: Seq<Spanned<Item>>, i: int, t: Spanned<Type>)
    requires
        0 <= i < items.len(),
        t.node matches Type::Named(n) && n@ == item_name_of(items[i].node),
    ensures
        type_errors(t, items).len() == 0,
{
    lemma_defined_names(items, item_name_of(items[i].node));
}

} // verus!
