//! Choosing the DLL name under which Koaloader is installed next to a game.
//!
//! Koaloader can pose as any of a fixed list of system DLLs. The best choice
//! is one that the game's main executable imports; failing that, one that
//! another PE file of its directory imports; failing that, `version.dll`,
//! flagged as a fallback.
use vstd::prelude::*;
use vstd::string::StringExecFns;
use crate::text::{eq_ascii_case_blind, eq_ignore_ascii_case, string_views, text_eq};

verus! {

/// The DLL names that Koaloader can pose as, most preferred first.
pub open spec fn koa_variants() -> Seq<Seq<char>> {
    seq![
        "version.dll"@,
        "winmm.dll"@,
        "winhttp.dll"@,
        "iphlpapi.dll"@,
        "dinput8.dll"@,
        "d3d11.dll"@,
        "dxgi.dll"@,
        "d3d9.dll"@,
        "d3d10.dll"@,
        "dwmapi.dll"@,
        "hid.dll"@,
        "msimg32.dll"@,
        "mswsock.dll"@,
        "opengl32.dll"@,
        "profapi.dll"@,
        "propsys.dll"@,
        "textshaping.dll"@,
        "glu32.dll"@,
        "audioses.dll"@,
        "msasn1.dll"@,
        "wldp.dll"@,
        "xinput9_1_0.dll"@,
    ]
}

/// The proxy used when no PE file imports any variant.
pub open spec fn fallback_proxy_name() -> Seq<char> {
    "version.dll"@
}

/// The DLL names that Koaloader can pose as, most preferred first.
pub fn koa_variant_names() -> (v: Vec<&'static str>)
    ensures
        v@.map_values(|s: &str| s@) == koa_variants(),
{
    let v = vec![
        "version.dll",
        "winmm.dll",
        "winhttp.dll",
        "iphlpapi.dll",
        "dinput8.dll",
        "d3d11.dll",
        "dxgi.dll",
        "d3d9.dll",
        "d3d10.dll",
        "dwmapi.dll",
        "hid.dll",
        "msimg32.dll",
        "mswsock.dll",
        "opengl32.dll",
        "profapi.dll",
        "propsys.dll",
        "textshaping.dll",
        "glu32.dll",
        "audioses.dll",
        "msasn1.dll",
        "wldp.dll",
        "xinput9_1_0.dll",
    ];
    assert(v@.map_values(|s: &str| s@) =~= koa_variants());
    v
}

/// Which proxy was chosen, and whether it is the fallback.
#[derive(Clone, Debug)]
pub struct ProxyScanResult {
    pub proxy_name: String,
    pub is_fallback: bool,
}

impl View for ProxyScanResult {
    type V = (Seq<char>, bool);

    open spec fn view(&self) -> (Seq<char>, bool) {
        (self.proxy_name@, self.is_fallback)
    }
}

/// One PE file of the executable's directory: its file name and its imports.
pub struct ScannedPe {
    pub file_name: String,
    pub imports: Vec<String>,
}

impl View for ScannedPe {
    type V = (Seq<char>, Seq<Seq<char>>);

    open spec fn view(&self) -> (Seq<char>, Seq<Seq<char>>) {
        (self.file_name@, string_views(self.imports@))
    }
}

/// The views of a sequence of scanned files.
pub open spec fn scanned_views(files: Seq<ScannedPe>) -> Seq<(Seq<char>, Seq<Seq<char>>)> {
    files.map_values(|f: ScannedPe| f@)
}

/// The imports of the files named `exe` (when `main`) or of the other files
/// (when not), in file order.
pub open spec fn pooled_imports(
    files: Seq<(Seq<char>, Seq<Seq<char>>)>,
    exe: Seq<char>,
    main: bool,
) -> Seq<Seq<char>>
    decreases files.len(),
{
    if files.len() == 0 {
        Seq::empty()
    } else {
        let last = files.last();
        let rest = pooled_imports(files.drop_last(), exe, main);
        if (last.0 == exe) == main {
            rest + last.1
        } else {
            rest
        }
    }
}

/// The first variant, from position `i` on, that `imports` holds.
pub open spec fn first_variant_from(imports: Seq<Seq<char>>, i: int) -> Option<int>
    decreases koa_variants().len() - i,
{
    if i < 0 || i >= koa_variants().len() {
        None
    } else if imports.contains(koa_variants()[i]) {
        Some(i)
    } else {
        first_variant_from(imports, i + 1)
    }
}

/// The proxy for the imports of the main executable and of its siblings.
pub open spec fn proxy_choice(exe_imports: Seq<Seq<char>>, other_imports: Seq<Seq<char>>) -> (
    Seq<char>,
    bool,
) {
    match first_variant_from(exe_imports, 0) {
        Some(k) => (koa_variants()[k], false),
        None => match first_variant_from(other_imports, 0) {
            Some(k) => (koa_variants()[k], false),
            None => (fallback_proxy_name(), true),
        },
    }
}

/// The proxy that a directory's scan gives.
pub open spec fn select_proxy_spec(files: Seq<(Seq<char>, Seq<Seq<char>>)>, exe: Seq<char>) -> (
    Seq<char>,
    bool,
) {
    proxy_choice(pooled_imports(files, exe, true), pooled_imports(files, exe, false))
}

/// `first_variant_from` finds the first variant at or after `i` that is
/// imported, and only such a one.
pub proof fn lemma_first_variant(imports: Seq<Seq<char>>, i: int)
    requires
        0 <= i,
    ensures
        match first_variant_from(imports, i) {
            Some(k) => {
                &&& i <= k < koa_variants().len()
                &&& imports.contains(koa_variants()[k])
                &&& forall|j: int| i <= j < k ==> !imports.contains(#[trigger] koa_variants()[j])
            },
            None => forall|j: int|
                i <= j < koa_variants().len() ==> !imports.contains(#[trigger] koa_variants()[j]),
        },
    decreases koa_variants().len() - i,
{
    if i < koa_variants().len() && !imports.contains(koa_variants()[i]) {
        lemma_first_variant(imports, i + 1);
    }
}

/// A name is among the pooled imports of one side exactly when some file of
/// that side imports it.
pub proof fn lemma_pooled_contains(
    files: Seq<(Seq<char>, Seq<Seq<char>>)>,
    exe: Seq<char>,
    main: bool,
    x: Seq<char>,
)
    ensures
        pooled_imports(files, exe, main).contains(x) <==> exists|i: int|
            0 <= i < files.len() && (files[i].0 == exe) == main && (#[trigger] files[i]).1.contains(
                x,
            ),
    decreases files.len(),
{
    if files.len() > 0 {
        let init = files.drop_last();
        let last = files.last();
        lemma_pooled_contains(init, exe, main, x);
        let rest = pooled_imports(init, exe, main);
        if pooled_imports(files, exe, main).contains(x) {
            if (last.0 == exe) == main {
                let j = choose|j: int|
                    0 <= j < (rest + last.1).len() && (rest + last.1)[j] == x;
                if j < rest.len() {
                    assert(rest[j] == x);
                    let i = choose|i: int|
                        0 <= i < init.len() && (init[i].0 == exe) == main && (
                        #[trigger] init[i]).1.contains(x);
                    assert(files[i] == init[i]);
                } else {
                    assert(last.1[j - rest.len()] == x);
                    assert(files[files.len() - 1] == last);
                }
            } else {
                let i = choose|i: int|
                    0 <= i < init.len() && (init[i].0 == exe) == main && (
                    #[trigger] init[i]).1.contains(x);
                assert(files[i] == init[i]);
            }
        }
        if exists|i: int|
            0 <= i < files.len() && (files[i].0 == exe) == main && (
            #[trigger] files[i]).1.contains(x) {
            let i = choose|i: int|
                0 <= i < files.len() && (files[i].0 == exe) == main && (
                #[trigger] files[i]).1.contains(x);
            if i < init.len() {
                assert(init[i] == files[i]);
                let j = choose|j: int| 0 <= j < rest.len() && rest[j] == x;
                if (last.0 == exe) == main {
                    assert((rest + last.1)[j] == x);
                }
            } else {
                let j = choose|j: int| 0 <= j < last.1.len() && last.1[j] == x;
                assert((rest + last.1)[rest.len() + j] == x);
            }
        }
    }
}

/// The first imported variant depends only on which variants are imported.
proof fn lemma_first_variant_membership(a: Seq<Seq<char>>, b: Seq<Seq<char>>, i: int)
    requires
        forall|k: int|
            0 <= k < koa_variants().len() ==> (a.contains(#[trigger] koa_variants()[k])
                <==> b.contains(koa_variants()[k])),
    ensures
        first_variant_from(a, i) == first_variant_from(b, i),
    decreases koa_variants().len() - i,
{
    if 0 <= i < koa_variants().len() {
        lemma_first_variant_membership(a, b, i + 1);
    }
}

/// Scans holding the same files pool the same variants on each side.
proof fn lemma_side_order_free(
    f1: Seq<(Seq<char>, Seq<Seq<char>>)>,
    f2: Seq<(Seq<char>, Seq<Seq<char>>)>,
    exe: Seq<char>,
    main: bool,
)
    requires
        forall|f: (Seq<char>, Seq<Seq<char>>)| f1.contains(f) <==> f2.contains(f),
    ensures
        forall|k: int|
            0 <= k < koa_variants().len() ==> (pooled_imports(f1, exe, main).contains(
                #[trigger] koa_variants()[k],
            ) <==> pooled_imports(f2, exe, main).contains(koa_variants()[k])),
{
    assert forall|k: int|
        0 <= k < koa_variants().len() implies (pooled_imports(f1, exe, main).contains(
        #[trigger] koa_variants()[k],
    ) <==> pooled_imports(f2, exe, main).contains(koa_variants()[k])) by {
        let x = koa_variants()[k];
        lemma_pooled_contains(f1, exe, main, x);
        lemma_pooled_contains(f2, exe, main, x);
        if pooled_imports(f1, exe, main).contains(x) {
            let i = choose|i: int|
                0 <= i < f1.len() && (f1[i].0 == exe) == main && (#[trigger] f1[i]).1.contains(x);
            assert(f1.contains(f1[i]));
            let j = choose|j: int| 0 <= j < f2.len() && f2[j] == f1[i];
            assert(f2[j].1.contains(x));
        }
        if pooled_imports(f2, exe, main).contains(x) {
            let i = choose|i: int|
                0 <= i < f2.len() && (f2[i].0 == exe) == main && (#[trigger] f2[i]).1.contains(x);
            assert(f2.contains(f2[i]));
            let j = choose|j: int| 0 <= j < f1.len() && f1[j] == f2[i];
            assert(f1[j].1.contains(x));
        }
    }
}

/// The proxy does not depend on the order in which the directory's PE files
/// were scanned, nor on a file being scanned twice: scans holding the same
/// files choose the same proxy.
pub proof fn lemma_proxy_order_free(
    f1: Seq<(Seq<char>, Seq<Seq<char>>)>,
    f2: Seq<(Seq<char>, Seq<Seq<char>>)>,
    exe: Seq<char>,
)
    requires
        forall|f: (Seq<char>, Seq<Seq<char>>)| f1.contains(f) <==> f2.contains(f),
    ensures
        select_proxy_spec(f1, exe) == select_proxy_spec(f2, exe),
{
    lemma_side_order_free(f1, f2, exe, true);
    lemma_side_order_free(f1, f2, exe, false);
    lemma_first_variant_membership(
        pooled_imports(f1, exe, true),
        pooled_imports(f2, exe, true),
        0,
    );
    lemma_first_variant_membership(
        pooled_imports(f1, exe, false),
        pooled_imports(f2, exe, false),
        0,
    );
}

/// `name` is the `k`-th variant, `imports` holds it, and holds no variant
/// listed before it.
pub open spec fn most_preferred_at(imports: Seq<Seq<char>>, name: Seq<char>, k: int) -> bool {
    &&& 0 <= k < koa_variants().len()
    &&& name == koa_variants()[k]
    &&& imports.contains(name)
    &&& forall|j: int| 0 <= j < k ==> !imports.contains(#[trigger] koa_variants()[j])
}

/// Some variant is among `imports`.
pub open spec fn imports_a_variant(imports: Seq<Seq<char>>) -> bool {
    exists|k: int| 0 <= k < koa_variants().len() && imports.contains(#[trigger] koa_variants()[k])
}

/// The proxy is the most preferred variant that the main executable
/// imports; when it imports none, the most preferred one that another PE
/// file imports; when none does, `version.dll` flagged as a fallback.
pub proof fn law_proxy_preference(exe_imports: Seq<Seq<char>>, other_imports: Seq<Seq<char>>)
    ensures
        ({
            let (name, fallback) = proxy_choice(exe_imports, other_imports);
            &&& imports_a_variant(exe_imports) ==> !fallback && exists|k: int|
                most_preferred_at(exe_imports, name, k)
            &&& !imports_a_variant(exe_imports) && imports_a_variant(other_imports) ==> !fallback
                && exists|k: int| most_preferred_at(other_imports, name, k)
            &&& !imports_a_variant(exe_imports) && !imports_a_variant(other_imports) ==> fallback
                && name == "version.dll"@
        }),
{
    lemma_first_variant(exe_imports, 0);
    lemma_first_variant(other_imports, 0);
    let (name, fallback) = proxy_choice(exe_imports, other_imports);
    if let Some(k) = first_variant_from(exe_imports, 0) {
        assert(most_preferred_at(exe_imports, name, k));
    } else if let Some(k) = first_variant_from(other_imports, 0) {
        assert(most_preferred_at(other_imports, name, k));
    }
}

/// Whether `imports` holds `name`.
fn holds(imports: &Vec<String>, name: &str) -> (r: bool)
    ensures
        r == string_views(imports@).contains(name@),
{
    let mut j: usize = 0;
    while j < imports.len()
        invariant
            j <= imports@.len(),
            forall|k: int| 0 <= k < j ==> imports@[k]@ != name@,
        decreases imports.len() - j,
    {
        if text_eq(imports[j].as_str(), name) {
            assert(string_views(imports@)[j as int] == name@);
            return true;
        }
        j += 1;
    }
    assert forall|k: int| 0 <= k < string_views(imports@).len() implies string_views(
        imports@,
    )[k] != name@ by {}
    false
}

/// The position of the first variant that `imports` holds.
fn first_variant(imports: &Vec<String>, variants: &Vec<&'static str>) -> (r: Option<usize>)
    requires
        variants@.map_values(|s: &str| s@) == koa_variants(),
    ensures
        match r {
            Some(k) => first_variant_from(string_views(imports@), 0) == Some(k as int),
            None => first_variant_from(string_views(imports@), 0) is None,
        },
{
    let ghost views = string_views(imports@);
    let mut i: usize = 0;
    while i < variants.len()
        invariant
            i <= variants@.len(),
            variants@.map_values(|s: &str| s@) == koa_variants(),
            views == string_views(imports@),
            first_variant_from(views, 0) == first_variant_from(views, i as int),
        decreases variants.len() - i,
    {
        assert(variants@.map_values(|s: &str| s@)[i as int] == variants@[i as int]@);
        if holds(imports, variants[i]) {
            return Some(i);
        }
        i += 1;
    }
    None
}

/// Pools the imports of the main executable and of the other files.
fn split_imports(files: &Vec<ScannedPe>, exe_name: &str) -> (r: (Vec<String>, Vec<String>))
    ensures
        string_views(r.0@) == pooled_imports(scanned_views(files@), exe_name@, true),
        string_views(r.1@) == pooled_imports(scanned_views(files@), exe_name@, false),
{
    let mut exe_imports: Vec<String> = Vec::new();
    let mut other_imports: Vec<String> = Vec::new();
    let mut i: usize = 0;
    assert(scanned_views(files@).take(0) =~= Seq::<(Seq<char>, Seq<Seq<char>>)>::empty());
    assert(string_views(exe_imports@) =~= Seq::<Seq<char>>::empty());
    while i < files.len()
        invariant
            i <= files@.len(),
            string_views(exe_imports@) == pooled_imports(
                scanned_views(files@).take(i as int),
                exe_name@,
                true,
            ),
            string_views(other_imports@) == pooled_imports(
                scanned_views(files@).take(i as int),
                exe_name@,
                false,
            ),
        decreases files.len() - i,
    {
        let f = &files[i];
        let ghost taken = scanned_views(files@).take(i as int + 1);
        assert(taken.drop_last() =~= scanned_views(files@).take(i as int));
        assert(taken.last() == f@);
        let main = text_eq(f.file_name.as_str(), exe_name);
        let mut j: usize = 0;
        let ghost exe_before = string_views(exe_imports@);
        let ghost other_before = string_views(other_imports@);
        while j < f.imports.len()
            invariant
                j <= f.imports@.len(),
                main ==> string_views(exe_imports@) == exe_before + string_views(
                    f.imports@,
                ).take(j as int),
                main ==> string_views(other_imports@) == other_before,
                !main ==> string_views(other_imports@) == other_before + string_views(
                    f.imports@,
                ).take(j as int),
                !main ==> string_views(exe_imports@) == exe_before,
            decreases f.imports.len() - j,
        {
            let name = f.imports[j].clone();
            let ghost e0 = exe_imports@;
            let ghost o0 = other_imports@;
            if main {
                exe_imports.push(name);
                assert(string_views(exe_imports@) =~= string_views(e0).push(f.imports@[j as int]@));
            } else {
                other_imports.push(name);
                assert(string_views(other_imports@) =~= string_views(o0).push(f.imports@[j as int]@));
            }
            assert(string_views(f.imports@).take(j as int + 1) =~= string_views(f.imports@).take(
                j as int,
            ).push(f.imports@[j as int]@));
            j += 1;
        }
        assert(string_views(f.imports@).take(j as int) =~= string_views(f.imports@));
        i += 1;
    }
    assert(scanned_views(files@).take(i as int) =~= scanned_views(files@));
    (exe_imports, other_imports)
}

/// The proxy used when the directory could not be scanned at all.
pub fn fallback_proxy() -> (r: ProxyScanResult)
    ensures
        r@ == (fallback_proxy_name(), true),
{
    ProxyScanResult { proxy_name: String::from_str("version.dll"), is_fallback: true }
}

/// Chooses the proxy from the scan of the executable's directory: `files`
/// are its PE files, `exe_name` the file name of the main executable.
pub fn select_proxy(files: &Vec<ScannedPe>, exe_name: &str) -> (r: ProxyScanResult)
    ensures
        r@ == select_proxy_spec(scanned_views(files@), exe_name@),
        koa_variants().contains(r@.0),
        r@.1 <==> forall|k: int|
            0 <= k < koa_variants().len() ==> !pooled_imports(
                scanned_views(files@),
                exe_name@,
                true,
            ).contains(#[trigger] koa_variants()[k]) && !pooled_imports(
                scanned_views(files@),
                exe_name@,
                false,
            ).contains(koa_variants()[k]),
        r@.1 ==> r@.0 == fallback_proxy_name(),
        (exists|k: int|
            0 <= k < koa_variants().len() && pooled_imports(
                scanned_views(files@),
                exe_name@,
                true,
            ).contains(#[trigger] koa_variants()[k])) ==> pooled_imports(
            scanned_views(files@),
            exe_name@,
            true,
        ).contains(r@.0),
        imports_a_variant(pooled_imports(scanned_views(files@), exe_name@, true)) ==> !r.is_fallback
            && exists|k: int|
            most_preferred_at(pooled_imports(scanned_views(files@), exe_name@, true), r@.0, k),
        !imports_a_variant(pooled_imports(scanned_views(files@), exe_name@, true))
            && imports_a_variant(pooled_imports(scanned_views(files@), exe_name@, false))
            ==> !r.is_fallback && exists|k: int|
            most_preferred_at(pooled_imports(scanned_views(files@), exe_name@, false), r@.0, k),
{
    proof {
        law_proxy_preference(
            pooled_imports(scanned_views(files@), exe_name@, true),
            pooled_imports(scanned_views(files@), exe_name@, false),
        );
    }
    let (exe_imports, other_imports) = split_imports(files, exe_name);
    let variants = koa_variant_names();
    let ghost ev = string_views(exe_imports@);
    let ghost ov = string_views(other_imports@);
    proof {
        lemma_first_variant(ev, 0);
        lemma_first_variant(ov, 0);
        assert(koa_variants().contains(koa_variants()[0]));
    }
    let r = match first_variant(&exe_imports, &variants) {
        Some(k) => {
            assert(variants@.map_values(|s: &str| s@)[k as int] == variants@[k as int]@);
            assert(koa_variants().contains(koa_variants()[k as int]));
            ProxyScanResult { proxy_name: variants[k].to_owned(), is_fallback: false }
        },
        None => match first_variant(&other_imports, &variants) {
            Some(k) => {
                assert(variants@.map_values(|s: &str| s@)[k as int] == variants@[k as int]@);
                assert(koa_variants().contains(koa_variants()[k as int]));
                ProxyScanResult { proxy_name: variants[k].to_owned(), is_fallback: false }
            },
            None => fallback_proxy(),
        },
    };
    proof {
        assert(r@ == proxy_choice(ev, ov));
        let (name, fallback) = proxy_choice(ev, ov);
        assert(r@.0 == name && r@.1 == fallback);
    }
    r
}

/// Whether a file extension marks a PE file: `exe` or `dll`, in any ASCII
/// case; a file without an extension is none.
pub fn is_pe_extension(extension: Option<&str>) -> (r: bool)
    ensures
        r == match extension {
            Some(e) => eq_ascii_case_blind(e@, "exe"@) || eq_ascii_case_blind(e@, "dll"@),
            None => false,
        },
{
    match extension {
        Some(e) => eq_ignore_ascii_case(e, "exe") || eq_ignore_ascii_case(e, "dll"),
        None => false,
    }
}

} // verus!
