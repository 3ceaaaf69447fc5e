//! Which resource-pack file stands in for an APK asset: the folders of the
//! APK that a resource pack may replace, and the path inside the pack that
//! replaces a given asset.
use vstd::prelude::*;

verus! {

/// What `std::path::Path::strip_prefix` returns for `path` and `base`, as
/// text: the rest of `path` after the components of `base`, `None` where
/// `base` is not a prefix of `path` component by component.
pub uninterp spec fn path_strip_prefix(path: Seq<char>, base: Seq<char>) -> Option<Seq<char>>;

/// `Path::new(path).strip_prefix(base)`, as text. The contract names the
/// result (`path_strip_prefix`) and says nothing more of it: the
/// component-wise matching of `std::path` is left unstated.
#[verifier::external_body]
pub fn strip_path_prefix<'a>(path: &'a str, base: &str) -> (r: Option<&'a str>)
    ensures
        r is None <==> path_strip_prefix(path@, base@) is None,
        r is Some ==> r.unwrap()@ == path_strip_prefix(path@, base@).unwrap(),
{
    match std::path::Path::new(path).strip_prefix(base) {
        Ok(rest) => rest.to_str(),
        Err(_) => None,
    }
}

/// The number of replacement rules.
pub open spec fn rule_count() -> int {
    4
}

/// The APK folder of replacement rule `i`.
pub open spec fn apk_folder(i: int) -> Seq<char> {
    if i == 0 {
        "gui/dist/hbui/"@
    } else if i == 1 {
        "skin_packs/persona/"@
    } else if i == 2 {
        "renderer/"@
    } else {
        "resource_packs/vanilla/cameras/"@
    }
}

/// The pack folder of replacement rule `i`.
pub open spec fn pack_folder(i: int) -> Seq<char> {
    if i == 0 {
        "hbui/"@
    } else if i == 1 {
        "persona/"@
    } else if i == 2 {
        "renderer/"@
    } else {
        "vanilla_cameras/"@
    }
}

/// The APK folder of replacement rule `i`.
pub fn apk_folder_of(i: usize) -> (r: &'static str)
    requires
        i < 4,
    ensures
        r@ == apk_folder(i as int),
{
    if i == 0 {
        "gui/dist/hbui/"
    } else if i == 1 {
        "skin_packs/persona/"
    } else if i == 2 {
        "renderer/"
    } else {
        "resource_packs/vanilla/cameras/"
    }
}

/// The pack folder of replacement rule `i`.
pub fn pack_folder_of(i: usize) -> (r: &'static str)
    requires
        i < 4,
    ensures
        r@ == pack_folder(i as int),
{
    if i == 0 {
        "hbui/"
    } else if i == 1 {
        "persona/"
    } else if i == 2 {
        "renderer/"
    } else {
        "vanilla_cameras/"
    }
}

/// The APK path with a leading `assets/` component removed, where it has one.
pub open spec fn without_assets_dir(path: Seq<char>) -> Seq<char> {
    match path_strip_prefix(path, "assets/"@) {
        Some(rest) => rest,
        None => path,
    }
}

/// The pack path given by the first rule, from rule `i` on, whose APK
/// folder `stripped` lies in: its pack folder followed by the rest of the
/// path.
pub open spec fn first_rule_from(stripped: Seq<char>, i: int) -> Option<Seq<char>>
    decreases rule_count() - i,
{
    if i >= rule_count() || i < 0 {
        None
    } else {
        match path_strip_prefix(stripped, apk_folder(i)) {
            Some(file) => Some(pack_folder(i) + file),
            None => first_rule_from(stripped, i + 1),
        }
    }
}

/// The path inside the resource pack that replaces the APK asset at `path`,
/// `None` where no rule replaces it.
pub open spec fn pack_path(path: Seq<char>) -> Option<Seq<char>> {
    first_rule_from(without_assets_dir(path), 0)
}

/// The concatenation of `parts`.
pub open spec fn concat_all(parts: Seq<Seq<char>>) -> Seq<char>
    decreases parts.len(),
{
    if parts.len() == 0 {
        Seq::empty()
    } else {
        concat_all(parts.drop_last()) + parts.last()
    }
}

/// Writes the path segments `paths` one after the other at the end of `out`
/// (with no separator added: each segment but the last ends with its own).
pub fn path_join_into(out: &mut String, paths: &[&str])
    ensures
        final(out)@ == old(out)@ + concat_all(paths@.map_values(|p: &str| p@)),
{
    let ghost views = paths@.map_values(|p: &str| p@);
    let mut i: usize = 0;
    while i < paths.len()
        invariant
            i <= paths@.len(),
            views == paths@.map_values(|p: &str| p@),
            out@ == old(out)@ + concat_all(views.take(i as int)),
        decreases paths.len() - i,
    {
        out.append(paths[i]);
        proof {
            assert(views.take(i + 1).drop_last() =~= views.take(i as int));
            assert(views.take(i + 1).last() == paths@[i as int]@);
            assert(old(out)@ + concat_all(views.take(i as int)) + paths@[i as int]@ =~= old(out)@
                + concat_all(views.take(i + 1)));
        }
        i = i + 1;
    }
    assert(views.take(paths@.len() as int) =~= views);
}

/// A strip result as text.
pub open spec fn opt_view(o: Option<&str>) -> Option<Seq<char>> {
    match o {
        Some(s) => Some(s@),
        None => None,
    }
}

/// The pack path given by the first rule, from rule `i` on, whose strip
/// result in `matches` is some rest of the path: that rule's pack folder
/// followed by the rest. Rules past the last one do not count.
pub open spec fn first_match_from(matches: Seq<Option<Seq<char>>>, i: int) -> Option<Seq<char>>
    decreases matches.len() - i,
{
    if i < 0 || i >= matches.len() || i >= rule_count() {
        None
    } else {
        match matches[i] {
            Some(file) => Some(pack_folder(i) + file),
            None => first_match_from(matches, i + 1),
        }
    }
}

/// Choosing among the results of stripping each rule's APK folder from an
/// asset's path (`matches[i]` for rule `i`): the first rule that stripped,
/// its pack folder followed by the rest of the path; `None` where none did.
pub fn pack_path_from_matches(matches: &[Option<&str>]) -> (r: Option<String>)
    ensures
        r is None <==> first_match_from(matches@.map_values(|o: Option<&str>| opt_view(o)), 0) is None,
        r is Some ==> r.unwrap()@ == first_match_from(
            matches@.map_values(|o: Option<&str>| opt_view(o)),
            0,
        ).unwrap(),
{
    let ghost mv = matches@.map_values(|o: Option<&str>| opt_view(o));
    let mut i: usize = 0;
    while i < matches.len() && i < 4
        invariant
            i <= 4,
            i <= matches.len(),
            mv == matches@.map_values(|o: Option<&str>| opt_view(o)),
            first_match_from(mv, 0) == first_match_from(mv, i as int),
        decreases 4 - i,
    {
        assert(mv[i as int] == opt_view(matches@[i as int]));
        match matches[i] {
            Some(file) => {
                let mut out = String::new();
                let pf = pack_folder_of(i);
                let parts = [pf, file];
                path_join_into(&mut out, parts.as_slice());
                proof {
                    let views = parts@.map_values(|p: &str| p@);
                    assert(views.len() == 2);
                    assert(parts@[0] == pf && parts@[1] == file);
                    assert(views[0] == pf@ && views[1] == file@);
                    assert(views.drop_last().drop_last() =~= Seq::<Seq<char>>::empty());
                    assert(concat_all(views.drop_last().drop_last()) == Seq::<char>::empty());
                    assert(views.drop_last().last() == pf@);
                    assert(concat_all(views.drop_last()) =~= pack_folder(i as int));
                    assert(concat_all(views) =~= pack_folder(i as int) + file@);
                    assert(out@ =~= pack_folder(i as int) + file@);
                }
                return Some(out);
            },
            None => {},
        }
        i = i + 1;
    }
    None
}

/// Choosing among the strip results is choosing the first rule that
/// matches the stripped path.
proof fn lemma_first_match_is_first_rule(stripped: Seq<char>, mv: Seq<Option<Seq<char>>>, i: int)
    requires
        mv.len() == rule_count(),
        0 <= i <= rule_count(),
        forall|k: int| 0 <= k < rule_count() ==> mv[k] == path_strip_prefix(stripped, apk_folder(k)),
    ensures
        first_match_from(mv, i) == first_rule_from(stripped, i),
    decreases rule_count() - i,
{
    if i < rule_count() {
        lemma_first_match_is_first_rule(stripped, mv, i + 1);
    }
}

/// The path inside the active resource pack that replaces the APK asset at
/// `path`: a leading `assets/` component is dropped, and the first folder
/// of the APK that the rest lies in (the HTML UI, the persona skin pack,
/// the renderer, the vanilla cameras) is replaced by its folder in the
/// pack. `None` where the asset lies in none of them.
pub fn pack_file_path(path: &str) -> (r: Option<String>)
    ensures
        r is None <==> pack_path(path@) is None,
        r is Some ==> r.unwrap()@ == pack_path(path@).unwrap(),
{
    let stripped = match strip_path_prefix(path, "assets/") {
        Some(rest) => rest,
        None => path,
    };
    let mut matches: Vec<Option<&str>> = Vec::new();
    let mut i: usize = 0;
    while i < 4
        invariant
            i <= 4,
            matches@.len() == i,
            forall|k: int|
                0 <= k < i ==> #[trigger] opt_view(matches@[k]) == path_strip_prefix(
                    stripped@,
                    apk_folder(k),
                ),
        decreases 4 - i,
    {
        let apk = apk_folder_of(i);
        matches.push(strip_path_prefix(stripped, apk));
        proof {
            assert(opt_view(matches@[i as int]) == path_strip_prefix(stripped@, apk_folder(i as int)));
        }
        i = i + 1;
    }
    let r = pack_path_from_matches(matches.as_slice());
    proof {
        let mv = matches@.map_values(|o: Option<&str>| opt_view(o));
        assert forall|k: int| 0 <= k < rule_count() implies mv[k] == path_strip_prefix(
            stripped@,
            apk_folder(k),
        ) by {
            assert(opt_view(matches@[k]) == path_strip_prefix(stripped@, apk_folder(k)));
        }
        lemma_first_match_is_first_rule(stripped@, mv, 0);
    }
    r
}

/// A pack path always comes from one rule: the first whose APK folder the
/// asset lies in, with that rule's pack folder in front of the rest of the
/// asset's path.
pub proof fn law_pack_path_first_rule(stripped: Seq<char>, i: int)
    requires
        0 <= i <= rule_count(),
    ensures
        first_rule_from(stripped, i) matches Some(q) ==> exists|k: int|
            #![trigger apk_folder(k)]
            {
                &&& i <= k < rule_count()
                &&& path_strip_prefix(stripped, apk_folder(k)) is Some
                &&& q == pack_folder(k) + path_strip_prefix(stripped, apk_folder(k)).unwrap()
                &&& forall|m: int|
                    i <= m < k ==> (#[trigger] path_strip_prefix(stripped, apk_folder(m))) is None
            },
        first_rule_from(stripped, i) is None ==> forall|m: int|
            i <= m < rule_count() ==> (#[trigger] path_strip_prefix(stripped, apk_folder(m))) is None,
    decreases rule_count() - i,
{
    if i < rule_count() {
        law_pack_path_first_rule(stripped, i + 1);
    }
}

/// What a load from the resource pack manager yields, given the text it
/// wrote: the file where it wrote something, `None` (not in the pack) where
/// it left the text empty.
pub fn loaded_resource(contents: Vec<u8>) -> (r: Option<Vec<u8>>)
    ensures
        contents@.len() == 0 ==> r is None,
        contents@.len() > 0 ==> r is Some && r.unwrap()@ == contents@,
{
    if contents.len() == 0 {
        None
    } else {
        Some(contents)
    }
}

/// A leading `assets/` component never changes which pack file replaces
/// an asset: where stripping `assets/` from `path` leaves `rest`, the pack
/// path is that of the first rule whose APK folder `rest` lies in (its pack
/// folder followed by the rest of `rest`), and there is none where `rest`
/// lies in no rule's folder. Without a leading `assets/`, the same holds of
/// `path` itself.
pub proof fn law_pack_path_by_rules(path: Seq<char>, k: int)
    requires
        0 <= k < rule_count(),
    ensures
        path_strip_prefix(path, "assets/"@) matches Some(rest) ==> {
            &&& (path_strip_prefix(rest, apk_folder(k)) is Some && forall|m: int|
                0 <= m < k ==> (#[trigger] path_strip_prefix(rest, apk_folder(m))) is None)
                ==> pack_path(path) == Some(
                pack_folder(k) + path_strip_prefix(rest, apk_folder(k)).unwrap(),
            )
            &&& (forall|m: int|
                0 <= m < rule_count() ==> (#[trigger] path_strip_prefix(rest, apk_folder(m))) is None)
                ==> pack_path(path) is None
        },
        path_strip_prefix(path, "assets/"@) is None ==> {
            &&& (path_strip_prefix(path, apk_folder(k)) is Some && forall|m: int|
                0 <= m < k ==> (#[trigger] path_strip_prefix(path, apk_folder(m))) is None)
                ==> pack_path(path) == Some(
                pack_folder(k) + path_strip_prefix(path, apk_folder(k)).unwrap(),
            )
            &&& (forall|m: int|
                0 <= m < rule_count() ==> (#[trigger] path_strip_prefix(path, apk_folder(m))) is None)
                ==> pack_path(path) is None
        },
{
    match path_strip_prefix(path, "assets/"@) {
        Some(rest) => lemma_pack_path_by_rules(path, rest, k),
        None => lemma_pack_path_by_rules(path, path, k),
    }
}

proof fn lemma_pack_path_by_rules(path: Seq<char>, s: Seq<char>, k: int)
    requires
        0 <= k < rule_count(),
        s == without_assets_dir(path),
    ensures
        (path_strip_prefix(s, apk_folder(k)) is Some && forall|m: int|
            0 <= m < k ==> (#[trigger] path_strip_prefix(s, apk_folder(m))) is None) ==> pack_path(path)
            == Some(pack_folder(k) + path_strip_prefix(s, apk_folder(k)).unwrap()),
        (forall|m: int| 0 <= m < rule_count() ==> (#[trigger] path_strip_prefix(s, apk_folder(m))) is None)
            ==> pack_path(path) is None,
{
    law_pack_path_first_rule(s, 0);
    if let Some(q) = first_rule_from(s, 0) {
        let j = choose|j: int|
            #![trigger apk_folder(j)]
            {
                &&& 0 <= j < rule_count()
                &&& path_strip_prefix(s, apk_folder(j)) is Some
                &&& q == pack_folder(j) + path_strip_prefix(s, apk_folder(j)).unwrap()
                &&& forall|m: int|
                    0 <= m < j ==> (#[trigger] path_strip_prefix(s, apk_folder(m))) is None
            };
        assert(path_strip_prefix(s, apk_folder(j)) is Some);
        if path_strip_prefix(s, apk_folder(k)) is Some && forall|m: int|
            0 <= m < k ==> (#[trigger] path_strip_prefix(s, apk_folder(m))) is None {
            if j < k {
                assert(path_strip_prefix(s, apk_folder(j)) is None);
            } else if k < j {
                assert(path_strip_prefix(s, apk_folder(k)) is None);
            }
        }
    } else {
        assert(path_strip_prefix(s, apk_folder(k)) is None);
    }
}

} // verus!
