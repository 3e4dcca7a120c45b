use vstd::prelude::*;
use vstd::string::StringExecFns;
use crate::capability_tree::{core_or_surround_word, CapabilityData};
use crate::document::TwoTreeViewDocument;
use crate::surrounds::SurroundItem;
use crate::text::same_text;
use crate::used_by::used_by_word;

verus! {

/// What stands for a character in the text of a page.
pub open spec fn encoded_char(c: char) -> Seq<char> {
    if c == '&' {
        "&amp;"@
    } else if c == '<' {
        "&lt;"@
    } else if c == '>' {
        "&gt;"@
    } else {
        seq![c]
    }
}

/// The text as it stands in a page: `&`, `<` and `>` are written as
/// entities.
pub open spec fn encoded(s: Seq<char>) -> Seq<char>
    decreases s.len(),
{
    if s.len() == 0 {
        Seq::empty()
    } else {
        encoded(s.drop_last()) + encoded_char(s.last())
    }
}

/// The text as it is to stand in a page between two tags. It is
/// `html_escape::encode_text`, which writes `&` as `&amp;`, `<` as `&lt;` and
/// `>` as `&gt;`, and leaves every other character as it is.
#[verifier::external_body]
fn encode_text(s: &str) -> (r: String)
    ensures
        r@ == encoded(s@),
{
    html_escape::encode_text(s).into_owned()
}

/// `Yes` for true and `No` for false.
pub fn as_y_n(b: bool) -> (s: &'static str)
    ensures
        s@ == if b {
            "Yes"@
        } else {
            "No"@
        },
{
    if b {
        "Yes"
    } else {
        "No"
    }
}

/// The pop-up that shows a capability: its name, its description, its notes,
/// where it belongs, and which lines of business use it.
pub open spec fn capability_page(data: CapabilityData) -> Seq<char> {
    "\n            <div class=\"modal-shade\" id=\"capability_modal\" onclick=\"document.getElementById('capability_modal').remove()\">\n                <div class=\"modal-content\">\n                    <div class=\"item_data\">\n                        <div class=\"name\">"@ + encoded(data.text@) + "</div>\n                        <div class=\"description\">\n                            <label>Description:</label>\n                            <div>"@ + encoded(data.description@) + "</div>\n                        </div>\n                        <div class=\"notes\">\n                            <label>Notes:</label>\n                            <div>"@ + encoded(data.notes@) + "</div>\n                        </div>\n                        <div class=\"core_surround\"><label>Core/Surround: </label>"@ + core_or_surround_word(data.core_surround) + "</div>\n                        <div class=\"used_by\">\n                            <label>Used By:</label>\n                            <div class=\"used_by_grid\">\n                                <div><label>Consumer</label></div>\n                                <div>"@ + used_by_word(data.used_by_set.consumer) + "</div>\n                                <div><label>SBB</label></div>\n                                <div>"@ + used_by_word(data.used_by_set.sbb) + "</div>\n                                <div><label>Commercial</label></div>\n                                <div>"@ + used_by_word(data.used_by_set.commercial) + "</div>\n                            </div>\n                        </div>\n                    </div>\n                </div>\n            </div>\n        "@
}

/// The capability as a piece of a page, to be shown as a pop-up.
pub fn capability_as_html(data: &CapabilityData) -> (page: String)
    ensures
        page@ == capability_page(*data),
{
    let mut page = String::new();
    page.append("\n            <div class=\"modal-shade\" id=\"capability_modal\" onclick=\"document.getElementById('capability_modal').remove()\">\n                <div class=\"modal-content\">\n                    <div class=\"item_data\">\n                        <div class=\"name\">");
    page.append(encode_text(data.text.as_str()).as_str());
    page.append("</div>\n                        <div class=\"description\">\n                            <label>Description:</label>\n                            <div>");
    page.append(encode_text(data.description.as_str()).as_str());
    page.append("</div>\n                        </div>\n                        <div class=\"notes\">\n                            <label>Notes:</label>\n                            <div>");
    page.append(encode_text(data.notes.as_str()).as_str());
    page.append("</div>\n                        </div>\n                        <div class=\"core_surround\"><label>Core/Surround: </label>");
    page.append(data.core_surround.as_text());
    page.append("</div>\n                        <div class=\"used_by\">\n                            <label>Used By:</label>\n                            <div class=\"used_by_grid\">\n                                <div><label>Consumer</label></div>\n                                <div>");
    page.append(data.used_by_set.consumer.as_text());
    page.append("</div>\n                                <div><label>SBB</label></div>\n                                <div>");
    page.append(data.used_by_set.sbb.as_text());
    page.append("</div>\n                                <div><label>Commercial</label></div>\n                                <div>");
    page.append(data.used_by_set.commercial.as_text());
    page.append("</div>\n                            </div>\n                        </div>\n                    </div>\n                </div>\n            </div>\n        ");
    page
}

/// The pop-up that shows a surround system: its name, whether it is new, and
/// which lines of business use it.
pub open spec fn surround_page(item: SurroundItem) -> Seq<char> {
    "\n            <div class=\"modal-shade\" id=\"surround_modal\" onclick=\"document.getElementById('surround_modal').remove()\">\n                <div class=\"modal-content\">\n                    <div class=\"item_data\">\n                        <div class=\"name\">"@ + encoded(item.data.name@) + "</div>\n                        <div><label>Construction:</label><div>"@ + (if item.data.is_new_system { "New system needs to be created"@ } else { "Existing system"@ }) + "</div></div>\n                        <div class=\"used_by\">\n                            <label>Used By:</label>\n                            <div class=\"used_by_grid\">\n                                <div><label>Consumer</label></div>\n                                <div>"@ + (if item.data.consumer_destination { "Yes"@ } else { "No"@ }) + "</div>\n                                <div><label>SBB</label></div>\n                                <div>"@ + (if item.data.sbb_destination { "Yes"@ } else { "No"@ }) + "</div>\n                                <div><label>Commercial</label></div>\n                                <div>"@ + (if item.data.commercial_destination { "Yes"@ } else { "No"@ }) + "</div>\n                            </div>\n                        </div>\n                    </div>\n                </div>\n            </div>\n        "@
}

/// The surround system as a piece of a page, to be shown as a pop-up.
pub fn surround_as_html(item: &SurroundItem) -> (page: String)
    ensures
        page@ == surround_page(*item),
{
    let mut page = String::new();
    page.append("\n            <div class=\"modal-shade\" id=\"surround_modal\" onclick=\"document.getElementById('surround_modal').remove()\">\n                <div class=\"modal-content\">\n                    <div class=\"item_data\">\n                        <div class=\"name\">");
    page.append(encode_text(item.data.name.as_str()).as_str());
    page.append("</div>\n                        <div><label>Construction:</label><div>");
    page.append(if item.data.is_new_system { "New system needs to be created" } else { "Existing system" });
    page.append("</div></div>\n                        <div class=\"used_by\">\n                            <label>Used By:</label>\n                            <div class=\"used_by_grid\">\n                                <div><label>Consumer</label></div>\n                                <div>");
    page.append(as_y_n(item.data.consumer_destination));
    page.append("</div>\n                                <div><label>SBB</label></div>\n                                <div>");
    page.append(as_y_n(item.data.sbb_destination));
    page.append("</div>\n                                <div><label>Commercial</label></div>\n                                <div>");
    page.append(as_y_n(item.data.commercial_destination));
    page.append("</div>\n                            </div>\n                        </div>\n                    </div>\n                </div>\n            </div>\n        ");
    page
}

/// The style sheet for the pop-ups.
pub const STYLE: &'static str = "\n        .modal-shade {\n            position: fixed;\n            z-index: 1;\n            left: 0;\n            top: 0;\n            width: 100%;\n            height: 100%;\n            overflow: auto;\n            background-color: #00000080;\n            display: flex;\n            justify-content: center;\n            align-items: center;\n        }\n        .modal-content {\n            background-color: #F7F7F7;\n            padding: 6px;\n            border: 3px solid #000000;\n            overflow: scroll;\n            max-height: 90%;\n            max-width: 90%;\n        }\n        .item_data {\n            max-width: 420px;\n            font-family: Arial, sans-serif;\n            font-size: 16px;\n            border: 2px solid #000000;\n            padding: 5px;\n        }\n        .item_data label {\n            font-weight: bold;\n        }\n        .item_data > div {\n            margin: 10px 2px;\n        }\n        .item_data .name {\n            font-size: 20px;\n            font-weight: bold;\n        }\n        .used_by_grid {\n            display: inline-grid;\n            grid-template-columns: max-content max-content;\n            grid-gap: 0;\n            border-right: 1px solid #000000;\n            border-bottom: 1px solid #000000;\n        }\n        .used_by_grid > div {\n            border-top: 1px solid #000000;\n            border-left: 1px solid #000000;\n            padding: 2px;\n            margin: 0;\n        }\n";

/// The style sheet that the pop-ups need.
pub fn style() -> (s: &'static str)
    ensures
        s@ == STYLE@,
{
    STYLE
}

/// The pop-up for the item of the kind `data_type` with the identifier
/// `item_id`: a capability of one of the trees, or a surround system of the
/// list. `None` where the kind is not `capability` or `surround`, or there is
/// no such item.
pub fn show_overlay(document: &TwoTreeViewDocument, data_type: &str, item_id: &str) -> (page:
    Option<String>)
    ensures
        data_type@ != "capability"@ && data_type@ != "surround"@ ==> page.is_none(),
        data_type@ == "capability"@ ==> match document.core_tree.tree@.find_path(item_id@) {
            Some(path) => page.is_some() && page.unwrap()@ == capability_page(
                document.core_tree.tree@.at(path).data,
            ),
            None => match document.surround_tree.tree@.find_path(item_id@) {
                Some(path) => page.is_some() && page.unwrap()@ == capability_page(
                    document.surround_tree.tree@.at(path).data,
                ),
                None => page.is_none(),
            },
        },
        data_type@ == "surround"@ ==> match page {
            Some(page) => exists|i: int|
                0 <= i < document.surrounds.items@.len() && page@ == surround_page(
                    #[trigger] document.surrounds.items@[i],
                ) && document.surrounds.items@[i].data.id@ == item_id@ && forall|j: int|
                    0 <= j < i ==> (#[trigger] document.surrounds.items@[j]).data.id@ != item_id@,
            None => forall|j: int|
                0 <= j < document.surrounds.items@.len() ==> (
                #[trigger] document.surrounds.items@[j]).data.id@ != item_id@,
        },
{
    proof {
        reveal_strlit("capability");
        reveal_strlit("surround");
        assert("capability"@.len() == 10);
        assert("surround"@.len() == 8);
    }
    if same_text(data_type, "capability") {
        match document.get_node_data(item_id) {
            Some(data) => Some(capability_as_html(data)),
            None => None,
        }
    } else if same_text(data_type, "surround") {
        match document.surrounds.index_of_id(item_id) {
            Some(i) => Some(surround_as_html(&document.surrounds.items[i])),
            None => None,
        }
    } else {
        None
    }
}

} // verus!
