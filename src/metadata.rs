//! What is shown about a stored resource, gathered from its provider records.

use vstd::prelude::*;
use crate::persist::ModStatus;
use crate::resource::ModProviderType;

verus! {

/// One provider record of a stored resource.
#[derive(Clone, Debug)]
pub struct ProviderRecord {
    pub provider_type: ModProviderType,
    pub display_name: String,
    pub description: String,
    pub image_url: Option<String>,
    pub page_url: String,
}

/// The page of the resource at each kind of provider, if it has one there.
#[derive(Clone, Debug)]
pub struct ProviderPages {
    pub curseforge: Option<String>,
    pub modrinth: Option<String>,
    pub custom: Option<String>,
}

/// What is shown about a stored resource.
#[derive(Clone, Debug)]
pub struct ModMetadata {
    pub id: i32,
    pub status: ModStatus,
    pub name: String,
    pub description: String,
    pub image_url: Option<String>,
    pub page_url: ProviderPages,
}

/// The page of the last of the records of type `t`, if there is one.
pub open spec fn last_page(records: Seq<ProviderRecord>, t: ModProviderType) -> Option<Seq<char>>
    decreases records.len(),
{
    if records.len() == 0 {
        None
    } else if records.last().provider_type == t {
        Some(records.last().page_url@)
    } else {
        last_page(records.drop_last(), t)
    }
}

pub open spec fn text_of(o: Option<String>) -> Option<Seq<char>> {
    match o {
        Some(s) => Some(s@),
        None => None,
    }
}

impl ProviderPages {
    pub open spec fn page(&self, t: ModProviderType) -> Option<Seq<char>> {
        match t {
            ModProviderType::CurseForge => text_of(self.curseforge),
            ModProviderType::Modrinth => text_of(self.modrinth),
            ModProviderType::Custom => text_of(self.custom),
        }
    }

    /// The pages of the records, a later record of a type replacing an earlier one.
    pub fn from_records(records: &Vec<ProviderRecord>) -> (r: ProviderPages)
        ensures
            forall|t: ModProviderType| r.page(t) == last_page(records@, t),
    {
        let mut r = ProviderPages { curseforge: None, modrinth: None, custom: None };
        let mut i: usize = 0;
        while i < records.len()
            invariant
                0 <= i <= records@.len(),
                forall|t: ModProviderType| r.page(t) == last_page(records@.take(i as int), t),
            decreases records.len() - i,
        {
            proof {
                assert(records@.take(i + 1).drop_last() =~= records@.take(i as int));
                assert(records@.take(i + 1).last() == records@[i as int]);
            }
            let rec = &records[i];
            let url = rec.page_url.clone();
            let ghost before = r;
            match rec.provider_type {
                ModProviderType::CurseForge => r.curseforge = Some(url),
                ModProviderType::Modrinth => r.modrinth = Some(url),
                ModProviderType::Custom => r.custom = Some(url),
            }
            proof {
                assert forall|t: ModProviderType| r.page(t) == last_page(records@.take(i + 1), t) by {
                    if t != rec.provider_type {
                        assert(r.page(t) == before.page(t));
                        assert(last_page(records@.take(i + 1), t) == last_page(records@.take(i as int), t));
                    } else {
                        assert(url@ == rec.page_url@);
                        assert(last_page(records@.take(i + 1), t) == Some(rec.page_url@));
                    }
                }
            }
            i = i + 1;
        }
        proof {
            assert(records@.take(i as int) =~= records@);
        }
        r
    }
}

impl ModMetadata {
    /// Describes a stored resource from its provider records, newest first:
    /// the newest record gives the description and image, and the name when
    /// the resource has none of its own. A resource without provider records
    /// has no description.
    pub fn from_model(id: i32, status: ModStatus, name: Option<String>, providers: &Vec<ProviderRecord>) -> (r:
        Option<ModMetadata>)
        ensures
            r is None <==> providers@.len() == 0,
            r is Some ==> {
                let m = r->Some_0;
                let first = providers@[0];
                &&& m.id == id
                &&& m.status == status
                &&& m.name@ == match name {
                    Some(n) => n@,
                    None => first.display_name@,
                }
                &&& m.description@ == first.description@
                &&& text_of(m.image_url) == text_of(first.image_url)
                &&& forall|t: ModProviderType| m.page_url.page(t) == last_page(providers@, t)
            },
    {
        if providers.len() == 0 {
            return None;
        }
        let first = &providers[0];
        let shown_name = match name {
            Some(n) => n,
            None => first.display_name.clone(),
        };
        let image_url = match &first.image_url {
            Some(u) => Some(u.clone()),
            None => None,
        };
        Some(
            ModMetadata {
                id,
                status,
                name: shown_name,
                description: first.description.clone(),
                image_url,
                page_url: ProviderPages::from_records(providers),
            },
        )
    }
}

} // verus!
