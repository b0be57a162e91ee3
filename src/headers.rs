//! An ordered set of raw HTTP header fields whose names compare without
//! regard to ASCII case.

use vstd::prelude::*;

verus! {

/// ASCII lower-casing of one byte.
pub open spec fn lower(c: u8) -> u8 {
    if 65 <= c && c <= 90 {
        (c + 32) as u8
    } else {
        c
    }
}

/// Two byte strings are equal once ASCII letters are folded to lower case.
pub open spec fn eq_ignore_case(a: Seq<u8>, b: Seq<u8>) -> bool {
    a.len() == b.len() && forall|i: int| 0 <= i < a.len() ==> #[trigger] lower(a[i]) == lower(b[i])
}

/// Some field of `h` carries the name `name`.
pub open spec fn has_header(h: Seq<(Seq<u8>, Seq<u8>)>, name: Seq<u8>) -> bool {
    exists|i: int| 0 <= i < h.len() && eq_ignore_case(#[trigger] h[i].0, name)
}

/// The value of the first field of `h` named `name`.
pub open spec fn header_value(h: Seq<(Seq<u8>, Seq<u8>)>, name: Seq<u8>) -> Option<Seq<u8>>
    decreases h.len(),
{
    if h.len() == 0 {
        None
    } else if eq_ignore_case(h[0].0, name) {
        Some(h[0].1)
    } else {
        header_value(h.drop_first(), name)
    }
}

/// `h` with the field `(name, value)` added at the end unless a field of
/// that name is already present.
pub open spec fn with_default(
    h: Seq<(Seq<u8>, Seq<u8>)>,
    name: Seq<u8>,
    value: Seq<u8>,
) -> Seq<(Seq<u8>, Seq<u8>)> {
    if has_header(h, name) {
        h
    } else {
        h.push((name, value))
    }
}

pub proof fn lemma_header_value_step(h: Seq<(Seq<u8>, Seq<u8>)>, name: Seq<u8>, i: int)
    requires
        0 <= i < h.len(),
    ensures
        header_value(h.subrange(i, h.len() as int), name) == if eq_ignore_case(h[i].0, name) {
            Some(h[i].1)
        } else {
            header_value(h.subrange(i + 1, h.len() as int), name)
        },
{
    let t = h.subrange(i, h.len() as int);
    assert(t.drop_first() =~= h.subrange(i + 1, h.len() as int));
}

pub proof fn lemma_header_value_absent(h: Seq<(Seq<u8>, Seq<u8>)>, name: Seq<u8>)
    requires
        !has_header(h, name),
    ensures
        header_value(h, name) == None::<Seq<u8>>,
    decreases h.len(),
{
    if h.len() > 0 {
        assert(!eq_ignore_case(h[0].0, name));
        assert forall|i: int| 0 <= i < h.drop_first().len() implies !eq_ignore_case(
            #[trigger] h.drop_first()[i].0,
            name,
        ) by {
            assert(h.drop_first()[i] == h[i + 1]);
        }
        lemma_header_value_absent(h.drop_first(), name);
    }
}

pub proof fn lemma_header_value_push(
    h: Seq<(Seq<u8>, Seq<u8>)>,
    x: (Seq<u8>, Seq<u8>),
    name: Seq<u8>,
)
    ensures
        has_header(h.push(x), name) == (has_header(h, name) || eq_ignore_case(x.0, name)),
        header_value(h.push(x), name) == if has_header(h, name) {
            header_value(h, name)
        } else if eq_ignore_case(x.0, name) {
            Some(x.1)
        } else {
            None
        },
    decreases h.len(),
{
    let hp = h.push(x);
    if has_header(h, name) {
        let i = choose|i: int| 0 <= i < h.len() && eq_ignore_case(#[trigger] h[i].0, name);
        assert(hp[i] == h[i]);
    }
    if eq_ignore_case(x.0, name) {
        assert(hp[h.len() as int] == x);
    }
    if has_header(hp, name) && !eq_ignore_case(x.0, name) {
        let i = choose|i: int| 0 <= i < hp.len() && eq_ignore_case(#[trigger] hp[i].0, name);
        assert(h[i] == hp[i]);
    }
    if h.len() == 0 {
        assert(hp[0] == x);
        assert(hp.drop_first() =~= Seq::<(Seq<u8>, Seq<u8>)>::empty());
        assert(header_value(hp.drop_first(), name) == None::<Seq<u8>>);
    } else {
        assert(hp[0] == h[0]);
        assert(hp.drop_first() =~= h.drop_first().push(x));
        lemma_header_value_push(h.drop_first(), x, name);
        if !eq_ignore_case(h[0].0, name) {
            if has_header(h, name) {
                let i = choose|i: int| 0 <= i < h.len() && eq_ignore_case(#[trigger] h[i].0, name);
                assert(h.drop_first()[i - 1] == h[i]);
            }
            if has_header(h.drop_first(), name) {
                let i = choose|i: int|
                    0 <= i < h.drop_first().len() && eq_ignore_case(#[trigger] h.drop_first()[i].0, name);
                assert(h[i + 1] == h.drop_first()[i]);
            }
        }
    }
    if !has_header(h, name) {
        lemma_header_value_absent(h, name);
    }
}

/// Adding a default never changes the value of a field that was present,
/// and adds exactly the default's name.
pub proof fn lemma_with_default(
    h: Seq<(Seq<u8>, Seq<u8>)>,
    n: Seq<u8>,
    v: Seq<u8>,
    name: Seq<u8>,
)
    ensures
        has_header(with_default(h, n, v), name) == (has_header(h, name) || eq_ignore_case(n, name)),
        header_value(with_default(h, n, v), name) == if has_header(h, name) {
            header_value(h, name)
        } else if eq_ignore_case(n, name) {
            Some(v)
        } else {
            None
        },
{
    lemma_header_value_push(h, (n, v), name);
    if has_header(h, n) {
        if eq_ignore_case(n, name) {
            let i = choose|i: int| 0 <= i < h.len() && eq_ignore_case(#[trigger] h[i].0, n);
            lemma_eq_ignore_case_trans_sym(h[i].0, n, name);
        }
    }
    if !has_header(h, name) {
        lemma_header_value_absent(h, name);
    }
}

proof fn lemma_eq_ignore_case_trans_sym(a: Seq<u8>, b: Seq<u8>, c: Seq<u8>)
    requires
        eq_ignore_case(a, b),
        eq_ignore_case(b, c),
    ensures
        eq_ignore_case(a, c),
{
    assert forall|i: int| 0 <= i < a.len() implies #[trigger] lower(a[i]) == lower(c[i]) by {
        assert(lower(a[i]) == lower(b[i]));
        assert(lower(b[i]) == lower(c[i]));
    }
}

/// The view of an optional byte string.
pub open spec fn opt_bytes(o: Option<Vec<u8>>) -> Option<Seq<u8>> {
    match o {
        Some(v) => Some(v@),
        None => None,
    }
}

/// One header field.
#[derive(Clone, Debug, PartialEq, Eq)]
pub struct Header {
    pub name: Vec<u8>,
    pub value: Vec<u8>,
}

impl Header {
    pub open spec fn view(&self) -> (Seq<u8>, Seq<u8>) {
        (self.name@, self.value@)
    }
}

/// Header fields in the order in which they were added.
#[derive(Clone, Debug, PartialEq, Eq)]
pub struct Headers {
    pub entries: Vec<Header>,
}

impl View for Headers {
    type V = Seq<(Seq<u8>, Seq<u8>)>;

    open spec fn view(&self) -> Seq<(Seq<u8>, Seq<u8>)> {
        self.entries@.map_values(|e: Header| e.view())
    }
}

/// Compares two byte strings without regard to ASCII case.
pub fn bytes_eq_ignore_case(a: &[u8], b: &[u8]) -> (r: bool)
    ensures
        r == eq_ignore_case(a@, b@),
{
    if a.len() != b.len() {
        return false;
    }
    let mut i: usize = 0;
    while i < a.len()
        invariant
            a@.len() == b@.len(),
            0 <= i <= a@.len(),
            forall|j: int| 0 <= j < i ==> #[trigger] lower(a@[j]) == lower(b@[j]),
        decreases a@.len() - i,
    {
        let x = a[i];
        let y = b[i];
        let lx: u8 = if 65 <= x && x <= 90 { x + 32 } else { x };
        let ly: u8 = if 65 <= y && y <= 90 { y + 32 } else { y };
        if lx != ly {
            assert(lower(a@[i as int]) != lower(b@[i as int]));
            return false;
        }
        i = i + 1;
    }
    true
}

impl Headers {
    /// An empty header set.
    pub fn new() -> (r: Headers)
        ensures
            r@ == Seq::<(Seq<u8>, Seq<u8>)>::empty(),
    {
        let r = Headers { entries: Vec::new() };
        assert(r@ =~= Seq::<(Seq<u8>, Seq<u8>)>::empty());
        r
    }

    /// A field-by-field copy.
    pub fn copy(&self) -> (r: Headers)
        ensures
            r@ == self@,
    {
        let mut out: Vec<Header> = Vec::new();
        let mut i: usize = 0;
        while i < self.entries.len()
            invariant
                0 <= i <= self.entries@.len(),
                out@.len() == i,
                forall|j: int| 0 <= j < i ==> (#[trigger] out@[j]).view() == self@[j],
            decreases self.entries@.len() - i,
        {
            let e = &self.entries[i];
            let n = e.name.clone();
            let v = e.value.clone();
            assert(n@ =~= e.name@);
            assert(v@ =~= e.value@);
            out.push(Header { name: n, value: v });
            i = i + 1;
        }
        let r = Headers { entries: out };
        assert(r@ =~= self@);
        r
    }

    /// The number of fields.
    pub fn len(&self) -> (r: usize)
        ensures
            r == self@.len(),
    {
        self.entries.len()
    }

    /// The index of the first field named `name`.
    pub fn position(&self, name: &[u8]) -> (r: Option<usize>)
        ensures
            match r {
                Some(i) => i < self@.len() && eq_ignore_case(self@[i as int].0, name@)
                    && header_value(self@, name@) == Some(self@[i as int].1) && forall|j: int|
                    0 <= j < i ==> !eq_ignore_case(#[trigger] self@[j].0, name@),
                None => !has_header(self@, name@) && header_value(self@, name@) == None::<Seq<u8>>,
            },
    {
        let ghost h = self@;
        let mut i: usize = 0;
        assert(h.subrange(0, h.len() as int) =~= h);
        while i < self.entries.len()
            invariant
                h == self@,
                h.len() == self.entries@.len(),
                0 <= i <= h.len(),
                forall|j: int| 0 <= j < i ==> !eq_ignore_case(#[trigger] h[j].0, name@),
                header_value(h, name@) == header_value(h.subrange(i as int, h.len() as int), name@),
            decreases h.len() - i,
        {
            proof {
                lemma_header_value_step(h, name@, i as int);
            }
            if bytes_eq_ignore_case(self.entries[i].name.as_slice(), name) {
                return Some(i);
            }
            i = i + 1;
        }
        proof {
            lemma_header_value_absent(h, name@);
        }
        None
    }

    /// Whether a field named `name` is present.
    pub fn contains(&self, name: &[u8]) -> (r: bool)
        ensures
            r == has_header(self@, name@),
    {
        match self.position(name) {
            Some(_) => true,
            None => false,
        }
    }

    /// The value of the first field named `name`.
    pub fn get(&self, name: &[u8]) -> (r: Option<Vec<u8>>)
        ensures
            match r {
                Some(v) => header_value(self@, name@) == Some(v@),
                None => header_value(self@, name@) == None::<Seq<u8>>,
            },
    {
        match self.position(name) {
            Some(i) => Some(self.entries[i].value.clone()),
            None => None,
        }
    }

    /// Adds a field at the end.
    pub fn append(&mut self, name: Vec<u8>, value: Vec<u8>)
        ensures
            final(self)@ == old(self)@.push((name@, value@)),
    {
        let ghost n = name@;
        let ghost v = value@;
        self.entries.push(Header { name, value });
        assert(final(self)@ =~= old(self)@.push((n, v)));
    }

    /// Adds a field unless one of that name is already present.
    pub fn set_default(&mut self, name: Vec<u8>, value: Vec<u8>)
        ensures
            final(self)@ == with_default(old(self)@, name@, value@),
    {
        if !self.contains(name.as_slice()) {
            self.append(name, value);
        }
    }

    /// Replaces the value of the first field named `name`, or adds the field.
    pub fn set(&mut self, name: Vec<u8>, value: Vec<u8>)
        ensures
            has_header(old(self)@, name@) ==> exists|i: int|
                0 <= i < old(self)@.len() && eq_ignore_case(#[trigger] old(self)@[i].0, name@)
                    && header_value(old(self)@, name@) == Some(old(self)@[i].1) && (forall|j: int|
                    0 <= j < i ==> !eq_ignore_case(#[trigger] old(self)@[j].0, name@))
                    && final(self)@ == old(self)@.update(i, (old(self)@[i].0, value@)),
            !has_header(old(self)@, name@) ==> final(self)@ == old(self)@.push((name@, value@)),
    {
        match self.position(name.as_slice()) {
            Some(i) => {
                let ghost v = value@;
                self.entries[i].value = value;
                assert(final(self)@ =~= old(self)@.update(i as int, (old(self)@[i as int].0, v)));
            },
            None => {
                self.append(name, value);
            },
        }
    }
}

} // verus!
