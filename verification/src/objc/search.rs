//! Searches among all known classes.
use crate::objc::classes;
use crate::objc::classes::{nil, Class, HostObject, ObjC, ObjCState, ObjectView, SEL};
use crate::objc::names;
use crate::objc::names::Name;
use vstd::prelude::*;

verus! {

/// `name` with ASCII letters in lower case.
pub open spec fn lowercase(name: Seq<u8>) -> Seq<u8> {
    Seq::new(name.len(), |i: int| lower_char(name[i]))
}

pub open spec fn lower_char(c: u8) -> u8 {
    if 'A' as u8 <= c <= 'Z' as u8 {
        (c + 32) as u8
    } else {
        c
    }
}

/// Whether `part` occurs in `name` at index `k`.
pub open spec fn occurs_at(name: Seq<u8>, part: Seq<u8>, k: int) -> bool {
    0 <= k && k + part.len() <= name.len() && name.subrange(k, k + part.len()) == part
}

/// Whether `name` ends in `part`.
pub open spec fn ends_in(name: Seq<u8>, part: Seq<char>) -> bool {
    occurs_at(name, classes::name_of(part), name.len() - classes::name_of(part).len())
}

/// Whether `part` occurs in `name`.
pub open spec fn has_part(name: Seq<u8>, part: Seq<char>) -> bool {
    exists|k: int| occurs_at(name, classes::name_of(part), k)
}

/// How much a name looks like that of an application delegate; less is more.
pub open spec fn delegate_rank(name: Seq<u8>) -> int {
    let lower = lowercase(name);
    if ends_in(lower, "appdelegate"@) || ends_in(lower, "appcontroller"@) {
        0
    } else if has_part(lower, "delegate"@) {
        1
    } else {
        2
    }
}

/// Whether `a` comes before `b` by their bytes from index `k` on.
pub open spec fn less_from(a: Seq<u8>, b: Seq<u8>, k: int) -> bool
    decreases b.len() - k,
{
    if k >= b.len() {
        false
    } else if k >= a.len() {
        true
    } else if a[k] != b[k] {
        a[k] < b[k]
    } else {
        less_from(a, b, k + 1)
    }
}

/// Whether the name `a` is preferred to `b`: by its rank, and then by the
/// alphabet.
pub open spec fn preferred(a: Seq<u8>, b: Seq<u8>) -> bool {
    delegate_rank(a) < delegate_rank(b) || (delegate_rank(a) == delegate_rank(b) && less_from(
        a,
        b,
        0,
    ))
}

impl ObjCState {
    /// Whether the class of entry `i` itself declares the instance method
    /// `sel`.
    pub open spec fn declares(self, sel: SEL, i: int) -> bool {
        self.class(self.classes[i].1) matches Some(class) && !class.is_metaclass
            && class.methods.contains_key(sel)
    }

    /// Whether entry `i` declares `sel` and is preferred to all others that
    /// do.
    pub open spec fn is_best(self, sel: SEL, i: int) -> bool {
        &&& 0 <= i < self.classes.len()
        &&& self.declares(sel, i)
        &&& forall|j: int|
            0 <= j < self.classes.len() && j != i && #[trigger] self.declares(sel, j) ==> preferred(
                self.classes[i].0,
                self.classes[j].0,
            )
    }
}

proof fn lemma_less_transitive(a: Seq<u8>, b: Seq<u8>, c: Seq<u8>, k: int)
    requires
        0 <= k,
        less_from(a, b, k),
        less_from(b, c, k),
    ensures
        less_from(a, c, k),
    decreases c.len() - k,
{
    if k < a.len() && k < b.len() && k < c.len() && a[k] == b[k] && b[k] == c[k] {
        lemma_less_transitive(a, b, c, k + 1);
    }
}

proof fn lemma_less_total(a: Seq<u8>, b: Seq<u8>, k: int)
    requires
        0 <= k,
        k <= a.len(),
        k <= b.len(),
        forall|i: int| 0 <= i < k ==> i < a.len() && i < b.len() && a[i] == b[i],
        a != b,
    ensures
        less_from(a, b, k) || less_from(b, a, k),
    decreases a.len() - k,
{
    if k < a.len() && k < b.len() {
        if a[k] == b[k] {
            lemma_less_total(a, b, k + 1);
        }
    } else if a.len() == b.len() {
        assert(a =~= b);
    }
}

fn lower(name: &[u8]) -> (r: Name)
    ensures
        r@ == lowercase(name@),
{
    let mut r: Name = Vec::new();
    let n: usize = name.len();
    let mut i: usize = 0;
    while i < n
        invariant
            i <= n,
            n == name@.len(),
            r@ == lowercase(name@).take(i as int),
        decreases n - i,
    {
        let c: u8 = name[i];
        r.push(
            if 'A' as u8 <= c && c <= 'Z' as u8 {
                c + 32
            } else {
                c
            },
        );
        i += 1;
        proof {
            assert(r@ =~= lowercase(name@).take(i as int));
        }
    }
    proof {
        assert(r@ =~= lowercase(name@));
    }
    r
}

fn is_at(name: &[u8], part: &[u8], k: usize) -> (b: bool)
    requires
        k + part@.len() <= name@.len(),
    ensures
        b == occurs_at(name@, part@, k as int),
{
    let n: usize = name.len();
    proof {
        assert(k + part@.len() <= n);
    }
    names::same(vstd::slice::slice_subrange(name, k, k + part.len()), part)
}

pub(crate) fn ends_with(name: &[u8], part: &str) -> (b: bool)
    ensures
        b == ends_in(name@, part@),
{
    let p: &[u8] = part.as_bytes();
    p.len() <= name.len() && is_at(name, p, name.len() - p.len())
}

pub(crate) fn contains(name: &[u8], part: &str) -> (b: bool)
    ensures
        b == has_part(name@, part@),
{
    let p: &[u8] = part.as_bytes();
    if p.len() > name.len() {
        return false;
    }
    let last: usize = name.len() - p.len();
    let mut k: usize = 0;
    loop
        invariant
            p@ == classes::name_of(part@),
            last == name@.len() - p@.len(),
            k <= last,
            forall|j: int| 0 <= j < k ==> !#[trigger] occurs_at(name@, p@, j),
        decreases last - k,
    {
        if is_at(name, p, k) {
            return true;
        }
        if k == last {
            return false;
        }
        k += 1;
    }
}

fn rank(name: &[u8]) -> (r: u8)
    ensures
        r == delegate_rank(name@),
{
    let l: Name = lower(name);
    if ends_with(l.as_slice(), "appdelegate") || ends_with(l.as_slice(), "appcontroller") {
        0
    } else if contains(l.as_slice(), "delegate") {
        1
    } else {
        2
    }
}

fn less(a: &[u8], b: &[u8]) -> (r: bool)
    ensures
        r == less_from(a@, b@, 0),
{
    let mut k: usize = 0;
    loop
        invariant
            k <= b@.len(),
            k <= a@.len(),
            less_from(a@, b@, k as int) == less_from(a@, b@, 0),
        decreases b@.len() - k,
    {
        if k >= b.len() {
            return false;
        }
        if k >= a.len() {
            return true;
        }
        if a[k] != b[k] {
            return a[k] < b[k];
        }
        k += 1;
    }
}

fn prefers(a: &[u8], b: &[u8]) -> (r: bool)
    ensures
        r == preferred(a@, b@),
{
    let ra: u8 = rank(a);
    let rb: u8 = rank(b);
    ra < rb || (ra == rb && less(a, b))
}

impl ObjC {
    /// Find a registered class that *declares* the given instance method
    /// (by selector name), or `None` if there is no such class.
    ///
    /// This scans every registered class but only matches a class that
    /// declares the method *itself* — the superclass chain is intentionally
    /// not walked, so unrelated classes that merely inherit the method cannot
    /// match. Classes without a real Objective-C method table (substituted
    /// SDK classes, unimplemented-class placeholders, etc.) are skipped.
    ///
    /// When several classes match, selection is deterministic and prefers
    /// names that look like an application delegate (e.g. `AppDelegate`,
    /// `AppController`), so an unrelated class that happens to implement the
    /// selector does not shadow the real delegate.
    pub fn class_declaring_instance_method(&self, sel_name: &str) -> (r: Option<Class>)
        ensures
            match names::find(self@.selectors, classes::name_of(sel_name@)) {
                None => r is None,
                Some(sel) => match r {
                    Some(class) => exists|i: int| #[trigger]
                        self@.is_best(sel, i) && self@.classes[i].1 == class,
                    None => forall|i: int|
                        0 <= i < self@.classes.len() ==> !#[trigger] self@.declares(sel, i),
                },
            },
    {
        let sel: SEL = match self.lookup_selector(sel_name.as_bytes()) {
            Some(sel) => sel,
            None => {
                return None;
            },
        };
        let n: usize = self.all_classes().len();
        let ghost e = self@.classes;
        let mut best: Option<usize> = None;
        let mut i: usize = 0;
        while i < n
            invariant
                i <= n,
                e == self@.classes,
                n == e.len(),
                names::unique(e),
                match best {
                    Some(b) => b < i && self@.declares(sel, b as int) && forall|j: int|
                        0 <= j < i && j != b && #[trigger] self@.declares(sel, j) ==> preferred(
                            e[b as int].0,
                            e[j].0,
                        ),
                    None => forall|j: int| 0 <= j < i ==> !#[trigger] self@.declares(sel, j),
                },
            decreases n - i,
        {
            let class: Class = self.all_classes().value(i);
            let declares: bool = match self.class(class) {
                Some(c) => !c.is_metaclass && c.methods.contains_key(&sel),
                None => false,
            };
            proof {
                assert(declares == self@.declares(sel, i as int));
            }
            if declares {
                match best {
                    None => {
                        best = Some(i);
                    },
                    Some(b) => {
                        let better: bool = prefers(
                            self.all_classes().name(i).as_slice(),
                            self.all_classes().name(b).as_slice(),
                        );
                        proof {
                            let a = e[i as int].0;
                            let c = e[b as int].0;
                            assert(a != c);
                            lemma_less_total(a, c, 0);
                            if better {
                                assert forall|j: int|
                                    0 <= j < i + 1 && j != i && #[trigger] self@.declares(
                                        sel,
                                        j,
                                    ) implies preferred(a, e[j].0) by {
                                    if j != b {
                                        assert(preferred(c, e[j].0));
                                        if less_from(a, c, 0) && less_from(c, e[j].0, 0) {
                                            lemma_less_transitive(a, c, e[j].0, 0);
                                        }
                                    }
                                }
                            }
                        }
                        if better {
                            best = Some(i);
                        }
                    },
                }
            }
            i += 1;
        }
        match best {
            Some(b) => {
                proof {
                    assert(self@.is_best(sel, b as int));
                }
                Some(self.all_classes().value(b))
            },
            None => None,
        }
    }
}

/// A class in the JSON form of all classes.
pub open spec fn json_class(o: ObjCState, c: Class) -> Seq<u8> {
    let start = classes::name_of("        { \"name\": \""@);
    let end = |class_type: Seq<char>|
        classes::name_of("\", \"class_type\": \""@) + classes::name_of(class_type)
            + classes::name_of("\" }"@);
    if !o.objects.contains_key(c) {
        start + classes::name_of("<unknown>"@) + end("unknown"@)
    } else {
        match o.objects[c] {
            ObjectView::Class { class } => if class.superclass == nil {
                start + class.name + end("normal"@)
            } else {
                start + class.name + classes::name_of("\", \"super\": \""@)
                    + o.class_name_or_unknown(class.superclass) + end("normal"@)
            },
            ObjectView::Unimplemented { name, .. } => start + name + end("unimplemented"@),
            ObjectView::Fake { name, .. } => start + name + end("fake"@),
            ObjectView::Other => start + classes::name_of("<unknown>"@) + end("unknown"@),
        }
    }
}

/// The first `n` classes in the JSON form of all classes, each in a line of
/// its own. All but the very last have a comma.
pub open spec fn json_classes(o: ObjCState, n: nat) -> Seq<u8>
    decreases n,
{
    if n == 0 {
        seq![]
    } else {
        json_classes(o, (n - 1) as nat) + json_class(o, o.classes[n - 1].1) + classes::name_of(
            if n == o.classes.len() {
                "\n"@
            } else {
                ",\n"@
            },
        )
    }
}

/// All classes in JSON.
pub open spec fn json_dump(o: ObjCState) -> Seq<u8> {
    classes::name_of("{\n    \"object\": \"classes\",\n    \"classes\": [\n"@) + json_classes(
        o,
        o.classes.len(),
    ) + classes::name_of("    ]\n}\n"@)
}

/// Appends text.
fn push_str(out: &mut Vec<u8>, s: &str)
    ensures
        final(out)@ == old(out)@ + classes::name_of(s@),
{
    out.extend_from_slice(s.as_bytes());
    proof {
        assert(out@ =~= old(out)@ + classes::name_of(s@));
    }
}

/// Appends a name.
fn push_name(out: &mut Vec<u8>, name: &Name)
    ensures
        final(out)@ == old(out)@ + name@,
{
    out.extend_from_slice(name.as_slice());
    proof {
        assert(out@ =~= old(out)@ + name@);
    }
}

/// Appends the end of a class.
fn push_type(out: &mut Vec<u8>, class_type: &str)
    ensures
        final(out)@ == old(out)@ + (classes::name_of("\", \"class_type\": \""@)
            + classes::name_of(class_type@) + classes::name_of("\" }"@)),
{
    push_str(out, "\", \"class_type\": \"");
    push_str(out, class_type);
    push_str(out, "\" }");
    proof {
        assert(out@ =~= old(out)@ + (classes::name_of("\", \"class_type\": \""@)
            + classes::name_of(class_type@) + classes::name_of("\" }"@)));
    }
}

impl ObjC {
    /// Appends a class in its JSON form.
    fn push_json_class(&self, out: &mut Vec<u8>, c: Class)
        ensures
            final(out)@ == old(out)@ + json_class(self@, c),
    {
        push_str(out, "        { \"name\": \"");
        match self.get_host_object(c) {
            Some(HostObject::Class { class }) => {
                push_name(out, &class.name);
                if class.superclass != nil {
                    push_str(out, "\", \"super\": \"");
                    push_name(out, &self.get_class_name(class.superclass));
                }
                push_type(out, "normal");
            },
            Some(HostObject::Unimplemented { name, .. }) => {
                push_name(out, name);
                push_type(out, "unimplemented");
            },
            Some(HostObject::Fake { name, .. }) => {
                push_name(out, name);
                push_type(out, "fake");
            },
            _ => {
                push_str(out, "<unknown>");
                push_type(out, "unknown");
            },
        }
        proof {
            assert(out@ =~= old(out)@ + json_class(self@, c));
        }
    }

    /// All classes available to the emulator in JSON.
    ///
    /// The JSON has the following form:
    /// ```json
    /// {
    ///     "object": "classes",
    ///     "classes": [
    ///         {
    ///             "name": ((name of class)),
    ///             "super": ((name of superclass, if available)),
    ///             "class_type": (("normal" | "unimplemented" | "fake"))
    ///         },
    ///         ...
    ///     ]
    /// }
    /// ```
    pub fn dump_classes(&self) -> (out: Vec<u8>)
        ensures
            out@ == json_dump(self@),
    {
        let mut out: Vec<u8> = Vec::new();
        push_str(&mut out, "{\n    \"object\": \"classes\",\n    \"classes\": [\n");
        let ghost head = classes::name_of(
            "{\n    \"object\": \"classes\",\n    \"classes\": [\n"@,
        );
        let n: usize = self.all_classes().len();
        let mut i: usize = 0;
        proof {
            assert(out@ =~= head + json_classes(self@, 0));
        }
        while i < n
            invariant
                i <= n,
                n == self@.classes.len(),
                out@ == head + json_classes(self@, i as nat),
            decreases n - i,
        {
            let c: Class = self.all_classes().value(i);
            self.push_json_class(&mut out, c);
            i += 1;
            if i == n {
                push_str(&mut out, "\n");
            } else {
                push_str(&mut out, ",\n");
            }
            proof {
                assert(out@ =~= head + json_classes(self@, i as nat));
            }
        }
        push_str(&mut out, "    ]\n}\n");
        proof {
            assert(out@ =~= json_dump(self@));
        }
        out
    }
}

} // verus!
