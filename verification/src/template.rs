//! The skeleton document as literal text, for callers that want the
//! vendor template without building a tree.

use vstd::prelude::*;

verus! {

/// The vendor-flavored skeleton document as text: the `Project` root
/// with its fixed namespace attributes, the `FileHeader` and
/// `ContentHeader`, the `Types/GlobalNamespace` anchor and the
/// `Instances` anchor.
pub fn get_omron_template() -> (r: &'static str)
    ensures
        r@ == (
        "<?xml version=\"1.0\"?>\n        <Project xmlns:xsi=\"http://www.w3.org/2001/XMLSchema-instance\" xmlns:smcext=\"https://www.ia.omron.com/Smc\" xsi:schemaLocation=\"https://www.ia.omron.com/Smc IEC61131_10_Ed1_0_SmcExt1_0_Spc1_0.xsd\" schemaVersion=\"1\" xmlns=\"www.iec.ch/public/TC65SC65BWG7TF10\">\n        <FileHeader companyName=\"OMRON Corporation\" productName=\"Sysmac Studio\" productVersion=\"1.30.0.0\" />\n        <ContentHeader name=\"Sample\">\n        </ContentHeader>\n        <Types>\n            <GlobalNamespace>\n            </GlobalNamespace>\n        </Types>\n        <Instances>\n        </Instances>\n    </Project>")@,
{
    "<?xml version=\"1.0\"?>\n        <Project xmlns:xsi=\"http://www.w3.org/2001/XMLSchema-instance\" xmlns:smcext=\"https://www.ia.omron.com/Smc\" xsi:schemaLocation=\"https://www.ia.omron.com/Smc IEC61131_10_Ed1_0_SmcExt1_0_Spc1_0.xsd\" schemaVersion=\"1\" xmlns=\"www.iec.ch/public/TC65SC65BWG7TF10\">\n        <FileHeader companyName=\"OMRON Corporation\" productName=\"Sysmac Studio\" productVersion=\"1.30.0.0\" />\n        <ContentHeader name=\"Sample\">\n        </ContentHeader>\n        <Types>\n            <GlobalNamespace>\n            </GlobalNamespace>\n        </Types>\n        <Instances>\n        </Instances>\n    </Project>"
}

} // verus!
